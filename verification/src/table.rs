//! The routing table, and the sessions that it serves.
use std::sync::Arc;
use vstd::prelude::*;
use crate::addr::{IpAddr, SocketAddr};
use crate::bgp;
use crate::bgp::{Family, Nlri, NotificationCode, State};
use crate::lists;
use crate::path;
use crate::path::{Destination, Path, PathAttr, Source, TableUpdate};
use crate::rib;
use crate::rib::Rib;
use crate::roa;
use crate::roa::RoaTable;
use crate::rtr::RtrSession;
use crate::time::Timestamp;
use crate::update;
use crate::vecmap;
use crate::vecmap::{Key, VecMap};

verus! {

/// Something that a session has to pass on to its peer.
pub enum PeerEvent {
    Broadcast(TableUpdate),
    Notification(NotificationCode),
}

/// A session with a peer.
pub struct BgpSession {
    pub source: Arc<Source>,
    /// How many routes of each family the peer has announced.
    pub accepted: VecMap<Family, u64>,
    /// The families that both ends have agreed on. None occurs twice.
    pub families: Vec<Family>,
}

impl Clone for BgpSession {
    fn clone(&self) -> (r: Self)
        ensures
            r.source == self.source,
            r.accepted.entries@ == self.accepted.entries@,
            r.families@ == self.families@,
    {
        BgpSession {
            source: self.source.clone(),
            accepted: VecMap { entries: bgp::copied(&self.accepted.entries) },
            families: bgp::copied(&self.families),
        }
    }
}

impl BgpSession {
    pub open spec fn wf(self) -> bool {
        self.accepted.wf() && self.families@.no_duplicates()
    }

    /// A session that has yet to be opened.
    pub fn new(source: Arc<Source>) -> (r: Self)
        ensures
            r.wf(),
            r.source == source,
            r.accepted@ == Map::<Family, u64>::empty(),
            r.families@ == Seq::<Family>::empty(),
    {
        BgpSession { source, accepted: VecMap::new(), families: Vec::new() }
    }

    /// Whether the number of accepted routes can change by `delta`.
    pub open spec fn can_accept(self, family: Family, delta: i64) -> bool {
        self.accepted@.contains_key(family) ==> 0 <= self.accepted@[family] + delta <= u64::MAX
            && delta > i64::MIN
    }

    /// The numbers of accepted routes after that of `family` has changed by `delta`. A family that
    /// is not known yet is not counted down.
    pub open spec fn accepted_after(self, family: Family, delta: i64) -> Map<Family, u64> {
        if self.accepted@.contains_key(family) {
            self.accepted@.insert(family, (self.accepted@[family] + delta) as u64)
        } else if delta > 0 {
            self.accepted@.insert(family, delta as u64)
        } else {
            self.accepted@
        }
    }

    /// Changes the number of accepted routes of a family.
    pub fn update_accepted(&mut self, family: Family, delta: i64)
        requires
            old(self).wf(),
            old(self).can_accept(family, delta),
        ensures
            final(self).wf(),
            final(self).accepted@ == old(self).accepted_after(family, delta),
            final(self).source == old(self).source,
            final(self).families == old(self).families,
    {
        match self.accepted.get(&family) {
            Some(v) => {
                let n: u64 = if delta > 0 {
                    *v + delta as u64
                } else {
                    *v - (-delta) as u64
                };
                self.accepted.insert(family, n);
            },
            None => {
                // ignore bogus withdrawn
                if delta > 0 {
                    self.accepted.insert(family, delta as u64);
                }
            },
        }
    }
}

/// The routing table.
pub struct Table {
    /// The source of the routes that the speaker itself announces.
    pub local_source: Arc<Source>,
    /// Whether routes are only collected.
    pub disable_best_path_selection: bool,
    pub master: VecMap<Family, Rib>,
    pub roa: RoaTable,
    pub bgp_sessions: VecMap<IpAddr, BgpSession>,
    /// The monitoring stations that are connected.
    pub bmp_sessions: VecMap<SocketAddr, ()>,
    pub rtr_sessions: VecMap<SocketAddr, RtrSession>,
}

/// The routes of all families.
pub type Routes = Map<Family, Map<Nlri, Seq<Path>>>;

/// The routes to the destinations of the family `f`, none where there is no such family.
pub open spec fn family_routes(m: Routes, f: Family) -> Map<Nlri, Seq<Path>> {
    if m.contains_key(f) {
        m[f]
    } else {
        Map::empty()
    }
}

/// The routes to the destination `n` of the family `f`.
pub open spec fn routes_at(m: Routes, f: Family, n: Nlri) -> Seq<Path> {
    rib::routes_to(family_routes(m, f), n)
}

/// The routes after the route `p` to `n` has come in.
pub open spec fn routes_with(m: Routes, f: Family, n: Nlri, p: Path, unsorted: bool) -> Routes {
    m.insert(
        f,
        family_routes(m, f).insert(n, rib::with_path(routes_at(m, f, n), p, unsorted)),
    )
}

/// The routes after the one from `a` to `n` is gone.
pub open spec fn routes_without(m: Routes, f: Family, n: Nlri, a: IpAddr) -> Routes {
    if rib::has_source(routes_at(m, f, n), a) {
        m.insert(
            f,
            rib::set_routes(family_routes(m, f), n, rib::without_source(routes_at(m, f, n), a)),
        )
    } else {
        m
    }
}

/// The routes after all from `a` are gone.
pub open spec fn routes_without_all(m: Routes, a: IpAddr) -> Routes {
    m.map_values(|t: Map<Nlri, Seq<Path>>| rib::without_source_all(t, a))
}

/// The routes that the tables of the families `s` hold.
pub open spec fn routes_of(s: Seq<(Family, Rib)>) -> Routes {
    vecmap::map_of(s).map_values(|t: Rib| rib::rib_map(t.entries@))
}

/// Whether all tables in `s` are well formed.
pub open spec fn ribs_ok(s: Seq<(Family, Rib)>) -> bool {
    forall|i: int|
        0 <= i < s.len() ==> (#[trigger] s[i]).1.wf() && rib::rib_ok(
            rib::rib_map(s[i].1.entries@),
        )
}

/// The updates that the loss of `source` calls for in the tables `s`.
pub open spec fn all_loss_updates(s: Seq<(Family, Rib)>, source: Arc<Source>) -> Seq<
    (Family, TableUpdate),
>
    decreases s.len(),
{
    if s.len() == 0 {
        Seq::empty()
    } else {
        all_loss_updates(s.drop_last(), source) + rib::loss_updates(
            s.last().0,
            rib::rib_list(s.last().1.entries@),
            source,
        )
    }
}

/// Whether an update from `from` about `family` is passed on to the session of the entry: when it
/// is up, is not that of `from`, is not in the same AS as well as `from`, and has the family.
pub open spec fn hears(from: Source, family: Family) -> spec_fn((IpAddr, BgpSession)) -> bool {
    |e: (IpAddr, BgpSession)|
        e.1.source.state == State::Established && e.0 != from.address && !(from.ibgp
            && e.1.source.ibgp) && e.1.families@.contains(family)
}

/// The addresses of the sessions in `s`.
pub open spec fn addresses(s: Seq<(IpAddr, BgpSession)>) -> Seq<IpAddr> {
    s.map_values(|e: (IpAddr, BgpSession)| e.0)
}

/// The routes that come from `a`.
pub open spec fn comes_from(a: IpAddr) -> spec_fn(Path) -> bool {
    |p: Path| p.source.address == a
}

/// The destination and its routes from `a`, if there are any.
pub open spec fn announced_by(a: IpAddr) -> spec_fn((Nlri, Seq<Path>)) -> Option<
    (Nlri, Seq<Path>),
> {
    |e: (Nlri, Seq<Path>)|
        {
            let own = e.1.filter(comes_from(a));
            if own.len() == 0 {
                None
            } else {
                Some((e.0, own))
            }
        }
}

/// What a list of references to routes refers to.
pub open spec fn referred(v: Seq<&Path>) -> Seq<Path> {
    v.map_values(|p: &Path| *p)
}

/// What a listing of routes shows.
pub open spec fn listing(v: Seq<(Nlri, Vec<&Path>)>) -> Seq<(Nlri, Seq<Path>)> {
    v.map_values(|e: (Nlri, Vec<&Path>)| (e.0, referred(e.1@)))
}

pub proof fn lemma_routes_insert(
    s: Seq<(Family, Rib)>,
    t: Seq<(Family, Rib)>,
    f: Family,
    r: Rib,
)
    requires
        vecmap::map_of(t) == vecmap::map_of(s).insert(f, r),
    ensures
        routes_of(t) == routes_of(s).insert(f, rib::rib_map(r.entries@)),
{
    assert(routes_of(t) =~= routes_of(s).insert(f, rib::rib_map(r.entries@)));
}

/// The tables are well formed exactly when those that the map holds are.
proof fn lemma_ribs_ok(s: Seq<(Family, Rib)>)
    requires
        vecmap::distinct_keys(s),
    ensures
        ribs_ok(s) == (forall|f: Family| #[trigger]
            vecmap::map_of(s).contains_key(f) ==> vecmap::map_of(s)[f].wf() && rib::rib_ok(
                rib::rib_map(vecmap::map_of(s)[f].entries@),
            )),
{
    if ribs_ok(s) {
        assert forall|f: Family| #[trigger]
            vecmap::map_of(s).contains_key(f) implies vecmap::map_of(s)[f].wf() && rib::rib_ok(
            rib::rib_map(vecmap::map_of(s)[f].entries@),
        ) by {
            vecmap::lemma_key(s, f);
        }
    } else {
        let i = choose|i: int|
            0 <= i < s.len() && !((#[trigger] s[i]).1.wf() && rib::rib_ok(
                rib::rib_map(s[i].1.entries@),
            ));
        vecmap::lemma_entry(s, i);
    }
}

impl Table {
    /// No key occurs twice in any of the maps, there is a table for the reserved family, in each
    /// table every destination has a route, and at most one from each source, and sessions are
    /// found under the addresses of their peers.
    pub open spec fn wf(self) -> bool {
        &&& self.master.wf()
        &&& self.roa.wf()
        &&& self.master@.contains_key(Family::Reserved)
        &&& ribs_ok(self.master.entries@)
        &&& self.bgp_sessions.wf()
        &&& forall|a: IpAddr| #[trigger]
            self.bgp_sessions@.contains_key(a) ==> self.bgp_sessions@[a].wf()
                && self.bgp_sessions@[a].source.address == a
        &&& self.bmp_sessions.wf()
        &&& self.rtr_sessions.wf()
    }

    /// The routes in the table.
    pub open spec fn routes(self) -> Routes {
        routes_of(self.master.entries@)
    }

    /// All but the routes is as it is in `other`.
    pub open spec fn same_but_routes(self, other: Table) -> bool {
        &&& self.local_source == other.local_source
        &&& self.disable_best_path_selection == other.disable_best_path_selection
        &&& self.roa == other.roa
        &&& self.bgp_sessions == other.bgp_sessions
        &&& self.bmp_sessions == other.bmp_sessions
        &&& self.rtr_sessions == other.rtr_sessions
    }

    /// The table that is walked for a family: its own, or that of the reserved family where it has
    /// none.
    pub open spec fn walked(self, family: Family) -> Rib {
        if self.master@.contains_key(family) {
            self.master@[family]
        } else {
            self.master@[Family::Reserved]
        }
    }

    /// A table without routes and sessions.
    pub fn new() -> (r: Table)
        ensures
            r.wf(),
            r.routes() == Map::<Family, Map<Nlri, Seq<Path>>>::empty().insert(
                Family::Reserved,
                Map::empty(),
            ),
            *r.local_source == (Source {
                address: IpAddr::V4(0),
                ibgp: false,
                local_as: 0,
                local_addr: IpAddr::V4(0),
                state: State::Idle,
            }),
            r.disable_best_path_selection == false,
            roa::roa_entries(r.roa.v4) == roa::no_roas(),
            roa::roa_entries(r.roa.v6) == roa::no_roas(),
            r.bgp_sessions@ == Map::<IpAddr, BgpSession>::empty(),
            r.bmp_sessions@ == Map::<SocketAddr, ()>::empty(),
            r.rtr_sessions@ == Map::<SocketAddr, RtrSession>::empty(),
    {
        let mut master: VecMap<Family, Rib> = VecMap::new();
        let ghost before = master.entries@;
        let reserved: Rib = VecMap::new();
        proof {
            assert(rib::rib_map(reserved.entries@) =~= Map::<Nlri, Seq<Path>>::empty());
        }
        master.insert(Family::Reserved, reserved);
        let local_source = Arc::new(
            Source {
                address: IpAddr::unspecified(),
                ibgp: false,
                local_as: 0,
                local_addr: IpAddr::unspecified(),
                state: State::Idle,
            },
        );
        let r = Table {
            local_source,
            disable_best_path_selection: false,
            master,
            roa: RoaTable::new(),
            bgp_sessions: VecMap::new(),
            bmp_sessions: VecMap::new(),
            rtr_sessions: VecMap::new(),
        };
        proof {
            assert(routes_of(before) =~= Map::<Family, Map<Nlri, Seq<Path>>>::empty());
            lemma_routes_insert(before, r.master.entries@, Family::Reserved, reserved);
            lemma_ribs_ok(r.master.entries@);
        }
        r
    }

    /// The table that is walked for a family.
    pub fn master_iter(&self, family: &Family) -> (r: &Rib)
        requires
            self.wf(),
        ensures
            *r == self.walked(*family),
            r.wf(),
            rib::rib_ok(rib::rib_map(r.entries@)),
    {
        proof {
            lemma_ribs_ok(self.master.entries@);
        }
        match self.master.get(family) {
            Some(t) => t,
            None => self.master.get(&Family::Reserved).unwrap(),
        }
    }

    /// The routes of a family that `source` has announced, with their destinations.
    pub fn adjin(&self, source: IpAddr, family: &Family) -> (r: Vec<(Nlri, Vec<&Path>)>)
        requires
            self.wf(),
        ensures
            listing(r@) == rib::rib_list(self.walked(*family).entries@).filter_map(
                announced_by(source),
            ),
    {
        let t = self.master_iter(family);
        let mut r: Vec<(Nlri, Vec<&Path>)> = Vec::new();
        let mut i: usize = 0;
        let ghost all = rib::rib_list(t.entries@);
        proof {
            reveal(Seq::filter_map);
            assert(listing(r@) =~= all.take(0).filter_map(announced_by(source)));
        }
        while i < t.entries.len()
            invariant
                i <= t.entries@.len(),
                all == rib::rib_list(t.entries@),
                listing(r@) == all.take(i as int).filter_map(announced_by(source)),
            decreases t.entries@.len() - i,
        {
            let dst = &t.entries[i].1;
            let mut v: Vec<&Path> = Vec::new();
            let mut j: usize = 0;
            proof {
                lists::lemma_filter_empty(dst.entry@.take(0), comes_from(source));
                assert(referred(v@) =~= dst.entry@.take(0).filter(comes_from(source)));
            }
            while j < dst.entry.len()
                invariant
                    j <= dst.entry@.len(),
                    referred(v@) == dst.entry@.take(j as int).filter(comes_from(source)),
                decreases dst.entry@.len() - j,
            {
                let p = &dst.entry[j];
                let ghost before = v@;
                proof {
                    lists::lemma_filter_take(dst.entry@, comes_from(source), j as int);
                }
                if p.source.address == source {
                    v.push(p);
                    assert(referred(v@) =~= referred(before).push(*p));
                }
                j += 1;
            }
            let ghost before = r@;
            proof {
                assert(dst.entry@.take(j as int) =~= dst.entry@);
                assert(all.take(i + 1).drop_last() =~= all.take(i as int));
                assert(all.take(i + 1).last() == (t.entries@[i as int].0, dst.entry@));
                assert(v@.len() == referred(v@).len());
                reveal(Seq::filter_map);
            }
            if v.len() != 0 {
                r.push((t.entries[i].0, v));
                proof {
                    assert(listing(r@) =~= listing(before) + seq![
                        (t.entries@[i as int].0, referred(v@)),
                    ]);
                }
            }
            i += 1;
        }
        assert(all.take(i as int) =~= all);
        r
    }

    /// What `insert` gives back: the new best route, where best routes are looked for and the best
    /// one has to be looked at again, and whether the source had no route there yet. The update
    /// carries the next hop of the route that came in, with the attributes and the source of the
    /// best route.
    pub open spec fn insert_result(self, f: Family, n: Nlri, p: Path) -> (
        Option<TableUpdate>,
        bool,
    ) {
        let unsorted = self.disable_best_path_selection;
        let s = routes_at(self.routes(), f, n);
        let best = rib::with_path(s, p, unsorted)[0];
        (
            if !unsorted && rib::best_changes(s, p, unsorted) {
                Some(TableUpdate::NewBest(n, p.nexthop, best.attrs, best.source))
            } else {
                None
            },
            !rib::has_source(s, p.source.address),
        )
    }

    /// Puts in the route to `net` that `source` announces at the time `now`, in place of the one
    /// it announced before.
    pub fn insert_at(
        &mut self,
        family: Family,
        net: Nlri,
        source: Arc<Source>,
        nexthop: IpAddr,
        attrs: Arc<PathAttr>,
        now: Timestamp,
    ) -> (r: (Option<TableUpdate>, bool))
        requires
            old(self).wf(),
        ensures
            final(self).wf(),
            final(self).same_but_routes(*old(self)),
            final(self).routes() == routes_with(
                old(self).routes(),
                family,
                net,
                Path::spec_at(source, nexthop, attrs, now),
                old(self).disable_best_path_selection,
            ),
            r == old(self).insert_result(family, net, Path::spec_at(source, nexthop, attrs, now)),
    {
        let unsorted = self.disable_best_path_selection;
        let p = Path::at(source, nexthop, attrs, now);
        let ghost m = self.routes();
        if !self.master.contains_key(&family) {
            let ghost before = self.master.entries@;
            let t: Rib = VecMap::new();
            proof {
                lemma_ribs_ok(self.master.entries@);
                assert(rib::rib_map(t.entries@) =~= Map::<Nlri, Seq<Path>>::empty());
            }
            self.master.insert(family, t);
            proof {
                lemma_routes_insert(before, self.master.entries@, family, t);
                lemma_ribs_ok(self.master.entries@);
            }
        }
        let ghost mid = self.master.entries@;
        proof {
            lemma_ribs_ok(mid);
            assert(rib::rib_map(self.master@[family].entries@) == family_routes(m, family));
        }
        let t = self.master.get_mut(&family).unwrap();
        let (new_best, replaced, best_attrs, best_source) = rib::rib_insert(t, net, p, unsorted);
        proof {
            lemma_routes_insert(mid, self.master.entries@, family, *t);
            lemma_ribs_ok(self.master.entries@);
            assert(self.routes() =~= routes_with(m, family, net, p, unsorted));
        }
        if !unsorted && new_best {
            (Some(TableUpdate::NewBest(net, nexthop, best_attrs, best_source)), !replaced)
        } else {
            (None, !replaced)
        }
    }

    /// Puts in the route to `net` that `source` announces now, in place of the one it announced
    /// before.
    pub fn insert(
        &mut self,
        family: Family,
        net: Nlri,
        source: Arc<Source>,
        nexthop: IpAddr,
        attrs: Arc<PathAttr>,
    ) -> (r: (Option<TableUpdate>, bool))
        requires
            old(self).wf(),
        ensures
            final(self).wf(),
            final(self).same_but_routes(*old(self)),
            exists|now: Timestamp|
                {
                    let p = #[trigger] Path::spec_at(source, nexthop, attrs, now);
                    &&& final(self).routes() == routes_with(
                        old(self).routes(),
                        family,
                        net,
                        p,
                        old(self).disable_best_path_selection,
                    )
                    &&& r == old(self).insert_result(family, net, p)
                },
    {
        let now = Timestamp::now();
        let r = self.insert_at(family, net, source, nexthop, attrs, now);
        assert(Path::spec_at(source, nexthop, attrs, now).timestamp == now);
        r
    }

    /// Takes out the route to `net` that `source` has announced. Gives back the update that this
    /// calls for, and whether there was such a route.
    pub fn remove(&mut self, family: Family, net: Nlri, source: Arc<Source>) -> (r: (
        Option<TableUpdate>,
        bool,
    ))
        requires
            old(self).wf(),
        ensures
            final(self).wf(),
            final(self).same_but_routes(*old(self)),
            final(self).routes() == routes_without(
                old(self).routes(),
                family,
                net,
                source.address,
            ),
            r.0 == rib::removal_update(net, routes_at(old(self).routes(), family, net), source),
            r.1 == rib::has_source(routes_at(old(self).routes(), family, net), source.address),
    {
        let ghost before = self.master.entries@;
        let ghost m = self.routes();
        proof {
            lemma_ribs_ok(before);
        }
        match self.master.get_mut(&family) {
            Some(t) => {
                assert(rib::rib_map(t.entries@) == family_routes(m, family));
                let r = rib::rib_remove(t, net, &source);
                proof {
                    lemma_routes_insert(before, self.master.entries@, family, *t);
                    lemma_ribs_ok(self.master.entries@);
                    assert(self.routes() =~= routes_without(m, family, net, source.address));
                }
                r
            },
            None => (None, false),
        }
    }

    /// Whether there is a route to `net` from `a`.
    pub fn has_route(&self, family: Family, net: &Nlri, a: &IpAddr) -> (r: bool)
        requires
            self.wf(),
        ensures
            r == rib::has_source(routes_at(self.routes(), family, *net), *a),
    {
        proof {
            lemma_ribs_ok(self.master.entries@);
        }
        match self.master.get(&family) {
            Some(t) => match t.get(net) {
                Some(d) => rib::find_source(&d.entry, a).is_some(),
                None => false,
            },
            None => false,
        }
    }

    /// Takes out all routes that `source` has announced. Gives back the updates that this calls
    /// for.
    pub fn clear(&mut self, source: Arc<Source>) -> (r: Vec<(Family, TableUpdate)>)
        requires
            old(self).wf(),
        ensures
            final(self).wf(),
            final(self).same_but_routes(*old(self)),
            final(self).routes() == routes_without_all(old(self).routes(), source.address),
            r@ == all_loss_updates(old(self).master.entries@, source),
    {
        let ghost all = self.master.entries@;
        let ghost m = self.routes();
        let ghost a = source.address;
        let mut updates: Vec<(Family, TableUpdate)> = Vec::new();
        let mut i: usize = 0;
        proof {
            assert(all.take(0).len() == 0);
        }
        while i < self.master.entries.len()
            invariant
                i <= all.len(),
                self.master.entries@.len() == all.len(),
                a == source.address,
                self.same_but_routes(*old(self)),
                ribs_ok(all),
                ribs_ok(self.master.entries@),
                forall|j: int|
                    0 <= j < all.len() ==> (#[trigger] self.master.entries@[j]).0 == all[j].0,
                forall|j: int|
                    0 <= j < i ==> rib::rib_map((#[trigger] self.master.entries@[j]).1.entries@)
                        == rib::without_source_all(rib::rib_map(all[j].1.entries@), a),
                forall|j: int| i <= j < all.len() ==> #[trigger] self.master.entries@[j] == all[j],
                updates@ == all_loss_updates(all.take(i as int), source),
            decreases all.len() - i,
        {
            let f: Family = self.master.entries[i].0;
            let ghost before = self.master.entries@;
            assert(before[i as int] == all[i as int]);
            rib::rib_clear(&mut self.master.entries[i].1, f, &source, &mut updates);
            proof {
                assert(all.take(i + 1).drop_last() =~= all.take(i as int));
                assert forall|j: int| 0 <= j < all.len() && j != i implies (
                #[trigger] self.master.entries@[j]) == before[j] by {}
            }
            i += 1;
        }
        proof {
            let now = self.master.entries@;
            assert(all.take(i as int) =~= all);
            assert forall|j: int, l: int| 0 <= j < l < now.len() implies (#[trigger] now[j]).0.id()
                != (#[trigger] now[l]).0.id() by {
                assert(all[j].0.id() != all[l].0.id());
            }
            assert forall|f: Family| #[trigger]
                vecmap::has_key(now, f) == vecmap::has_key(all, f) by {
                if vecmap::has_key(now, f) {
                    let j = vecmap::key_pos(now, f);
                    assert(all[j].0.id() == f);
                }
                if vecmap::has_key(all, f) {
                    let j = vecmap::key_pos(all, f);
                    assert(now[j].0.id() == f);
                }
            }
            assert forall|f: Family| m.contains_key(f) implies #[trigger] self.routes()[f]
                == rib::without_source_all(m[f], a) by {
                let j = vecmap::key_pos(all, f);
                vecmap::lemma_key(all, f);
                vecmap::lemma_entry(all, j);
                assert(now[j].0 == all[j].0);
                vecmap::lemma_entry(now, j);
            }
            assert(self.routes() =~= routes_without_all(m, a));
        }
        updates
    }

    /// The sessions that an update from `from` about `family` is passed on to, each with the event
    /// that does it. Without an update there are none.
    pub open spec fn deliveries(self, from: Source, family: Family, u: Option<TableUpdate>) -> Seq<
        (IpAddr, PeerEvent),
    > {
        match u {
            Some(msg) => addresses(
                self.bgp_sessions.entries@.filter(hears(from, family)),
            ).map_values(|a: IpAddr| (a, PeerEvent::Broadcast(msg))),
            None => Seq::empty(),
        }
    }

    /// The sessions that an update from `from` about `family` is passed on to, each with the event
    /// that does it.
    pub fn broadcast(&self, from: &Source, family: Family, msg: &TableUpdate) -> (r: Vec<
        (IpAddr, PeerEvent),
    >)
        ensures
            r@ == self.deliveries(*from, family, Some(*msg)),
    {
        let mut r: Vec<(IpAddr, PeerEvent)> = Vec::new();
        let mut i: usize = 0;
        let ghost all = self.bgp_sessions.entries@;
        let ghost event = |a: IpAddr| (a, PeerEvent::Broadcast(*msg));
        proof {
            lists::lemma_filter_empty(all.take(0), hears(*from, family));
            assert(r@ =~= addresses(all.take(0).filter(hears(*from, family))).map_values(event));
        }
        while i < self.bgp_sessions.entries.len()
            invariant
                i <= all.len(),
                all == self.bgp_sessions.entries@,
                event == (|a: IpAddr| (a, PeerEvent::Broadcast(*msg))),
                r@ == addresses(all.take(i as int).filter(hears(*from, family))).map_values(event),
            decreases all.len() - i,
        {
            let e = &self.bgp_sessions.entries[i];
            let ghost before = r@;
            let ghost heard = all.take(i as int).filter(hears(*from, family));
            proof {
                lists::lemma_filter_take(all, hears(*from, family), i as int);
            }
            if e.1.source.state == State::Established && e.0 != from.address && !(from.ibgp
                && e.1.source.ibgp) && has_family(&e.1.families, family) {
                r.push((e.0, PeerEvent::Broadcast(msg.clone())));
                proof {
                    assert(addresses(heard.push(all[i as int])).map_values(event) =~= addresses(
                        heard,
                    ).map_values(event).push(event(e.0)));
                }
            }
            i += 1;
        }
        assert(all.take(i as int) =~= all);
        r
    }

    /// Passes on an update, if there is one.
    pub fn pass_on(&self, from: &Source, family: Family, u: &Option<TableUpdate>) -> (r: Vec<
        (IpAddr, PeerEvent),
    >)
        ensures
            r@ == self.deliveries(*from, family, *u),
    {
        match u {
            Some(msg) => self.broadcast(from, family, msg),
            None => Vec::new(),
        }
    }
}

/// Whether `families` holds `family`.
pub fn has_family(families: &Vec<Family>, family: Family) -> (r: bool)
    ensures
        r == families@.contains(family),
{
    let mut i: usize = 0;
    while i < families.len()
        invariant
            i <= families@.len(),
            forall|j: int| 0 <= j < i ==> families@[j] != family,
        decreases families@.len() - i,
    {
        if families[i] == family {
            return true;
        }
        i += 1;
    }
    false
}

/// The routes of a family lead to finitely many destinations, each of which has a route, and at
/// most one from each source.
pub proof fn lemma_family_routes(t: Table, f: Family)
    requires
        t.wf(),
    ensures
        family_routes(t.routes(), f).dom().finite(),
        rib::rib_ok(family_routes(t.routes(), f)),
{
    lemma_ribs_ok(t.master.entries@);
    if t.routes().contains_key(f) {
        let r = t.master@[f];
        vecmap::lemma_len(r.entries@);
        assert(rib::rib_map(r.entries@).dom() =~= vecmap::map_of(r.entries@).dom());
    }
}

/// The table that is walked for a family is well formed.
pub proof fn lemma_walked(t: Table, f: Family)
    requires
        t.wf(),
    ensures
        t.walked(f).wf(),
        rib::rib_ok(rib::rib_map(t.walked(f).entries@)),
{
    lemma_ribs_ok(t.master.entries@);
}

/// A route that comes in goes before the first route that it is better than in some respect, and
/// behind all before that. Where best routes are not looked for it goes in front.
pub proof fn law_place_of_new_route(s: Seq<Path>, p: Path, unsorted: bool)
    requires
        rib::one_per_source(s),
    ensures
        ({
            let rest = rib::without_source(s, p.source.address);
            let all = rib::with_path(s, p, unsorted);
            exists|k: int|
                {
                    &&& 0 <= k <= rest.len()
                    &&& all == #[trigger] rest.insert(k, p)
                    &&& unsorted ==> k == 0
                    &&& !unsorted ==> forall|j: int|
                        0 <= j < k ==> !path::goes_before(p.attrs, (#[trigger] rest[j]).attrs)
                    &&& !unsorted && k < rest.len() ==> path::goes_before(p.attrs, rest[k].attrs)
                }
        }),
{
    let rest = rib::without_source(s, p.source.address);
    let k = rib::place(rest, p.attrs, unsorted);
    rib::lemma_first_after_is_first(rest, p.attrs);
    assert(rib::with_path(s, p, unsorted) == rest.insert(k, p));
}

/// A route that comes in changes nothing about other destinations, and leaves the routes of other
/// sources to its own in the order they had.
pub proof fn law_insert_touches_one(
    m: Routes,
    f: Family,
    n: Nlri,
    p: Path,
    unsorted: bool,
    g: Family,
    k: Nlri,
)
    requires
        rib::one_per_source(routes_at(m, f, n)),
    ensures
        (f, n) != (g, k) ==> routes_at(routes_with(m, f, n, p, unsorted), g, k) == routes_at(
            m,
            g,
            k,
        ),
        rib::has_source(routes_at(routes_with(m, f, n, p, unsorted), f, n), p.source.address),
        rib::without_source(
            routes_at(routes_with(m, f, n, p, unsorted), f, n),
            p.source.address,
        ) == rib::without_source(routes_at(m, f, n), p.source.address),
{
    let s = routes_at(m, f, n);
    let a = p.source.address;
    let rest = rib::without_source(s, a);
    rib::lemma_without_source(s, a);
    rib::lemma_first_after_bound(rest, p.attrs);
    let i = rib::place(rest, p.attrs, unsorted);
    let all = rib::with_path(s, p, unsorted);
    assert(all == rest.insert(i, p));
    assert forall|j: int| 0 <= j < i implies (#[trigger] all[j]).source.address != a by {
        assert(all[j] == rest[j]);
    }
    rib::lemma_first_from(all, a, i);
    assert(all.remove(i) =~= rest);
    assert(routes_at(routes_with(m, f, n, p, unsorted), f, n) == all);
}

/// A route that comes in again changes nothing.
pub proof fn law_insert_again(m: Routes, f: Family, n: Nlri, p: Path, unsorted: bool)
    requires
        rib::one_per_source(routes_at(m, f, n)),
    ensures
        routes_with(routes_with(m, f, n, p, unsorted), f, n, p, unsorted) == routes_with(
            m,
            f,
            n,
            p,
            unsorted,
        ),
{
    law_insert_touches_one(m, f, n, p, unsorted, f, n);
    let once = routes_with(m, f, n, p, unsorted);
    assert(routes_with(once, f, n, p, unsorted)[f] =~= once[f]);
    assert(routes_with(once, f, n, p, unsorted) =~= once);
}

/// Where best routes are looked for, a route that comes in without an update leaves the best route
/// as it is. With one, the update names the attributes and the source of the best route, and its
/// next hop too if the best route is the one that has come in.
pub proof fn law_insert_tells_the_best(t: Table, f: Family, n: Nlri, p: Path)
    requires
        t.wf(),
        !t.disable_best_path_selection,
    ensures
        ({
            let before = routes_at(t.routes(), f, n);
            let after = rib::with_path(before, p, false);
            match t.insert_result(f, n, p).0 {
                None => before.len() > 0 && after[0] == before[0],
                Some(u) => {
                    &&& u is NewBest
                    &&& u.nlri() == n
                    &&& u->NewBest_2 == after[0].attrs
                    &&& u->NewBest_3 == after[0].source
                    &&& after[0] == p ==> u->NewBest_1 == after[0].nexthop
                },
            }
        }),
{
    let s = routes_at(t.routes(), f, n);
    let a = p.source.address;
    let rest = rib::without_source(s, a);
    rib::lemma_first_from_is_first(s, a);
    rib::lemma_first_after_is_first(rest, p.attrs);
}

/// A route that is taken out without an update leaves the best route as it is, if there was one.
/// With one, the update says that the destination is gone when no route is left, and names the
/// best route otherwise.
pub proof fn law_remove_tells_the_best(n: Nlri, s: Seq<Path>, source: Arc<Source>)
    requires
        rib::one_per_source(s),
    ensures
        ({
            let after = rib::without_source(s, source.address);
            match rib::removal_update(n, s, source) {
                None => after.len() > 0 && s.len() > 0 && after[0] == s[0] || after == s,
                Some(TableUpdate::Withdrawn(k, from)) => k == n && from == source && after.len()
                    == 0,
                Some(TableUpdate::NewBest(k, nexthop, attrs, from)) => after.len() > 0 && k == n
                    && nexthop == after[0].nexthop && attrs == after[0].attrs && from
                    == after[0].source,
            }
        }),
{
    rib::lemma_first_from_is_first(s, source.address);
}

/// Taking out a route that has just come in, from a source that had none there, leaves the routes
/// to every destination as they were.
pub proof fn law_insert_then_remove(
    m: Routes,
    f: Family,
    n: Nlri,
    p: Path,
    unsorted: bool,
    g: Family,
    k: Nlri,
)
    requires
        rib::one_per_source(routes_at(m, f, n)),
        !rib::has_source(routes_at(m, f, n), p.source.address),
    ensures
        routes_at(
            routes_without(routes_with(m, f, n, p, unsorted), f, n, p.source.address),
            g,
            k,
        ) == routes_at(m, g, k),
{
    law_insert_touches_one(m, f, n, p, unsorted, g, k);
    let s = routes_at(m, f, n);
    assert(rib::without_source(s, p.source.address) == s);
    if (f, n) == (g, k) && s.len() == 0 {
        assert(s =~= Seq::<Path>::empty());
    }
}

/// After a route is taken out its source has none there. Taking it out again changes nothing, and
/// neither changes anything about other destinations.
pub proof fn law_remove(m: Routes, f: Family, n: Nlri, a: IpAddr, g: Family, k: Nlri)
    requires
        rib::one_per_source(routes_at(m, f, n)),
    ensures
        !rib::has_source(routes_at(routes_without(m, f, n, a), f, n), a),
        routes_without(routes_without(m, f, n, a), f, n, a) == routes_without(m, f, n, a),
        (f, n) != (g, k) ==> routes_at(routes_without(m, f, n, a), g, k) == routes_at(m, g, k),
{
    let s = routes_at(m, f, n);
    rib::lemma_without_source(s, a);
    let rest = rib::without_source(s, a);
    rib::lemma_first_from_is_first(rest, a);
    if rib::has_source(s, a) {
        if rest.len() == 0 {
            assert(rest =~= Seq::<Path>::empty());
        }
        assert(routes_at(routes_without(m, f, n, a), f, n) == rest);
    }
}

/// After a source is cleared it has no route anywhere, and the routes of the others are what they
/// were, in the order they had. Clearing it again changes nothing.
pub proof fn law_clear(m: Routes, a: IpAddr, f: Family, n: Nlri)
    requires
        forall|g: Family, k: Nlri| rib::one_per_source(#[trigger] routes_at(m, g, k)),
    ensures
        routes_at(routes_without_all(m, a), f, n) == rib::without_source(routes_at(m, f, n), a),
        !rib::has_source(routes_at(routes_without_all(m, a), f, n), a),
        routes_without_all(routes_without_all(m, a), a) == routes_without_all(m, a),
{
    let c = routes_without_all(m, a);
    lemma_clear_at(m, a, f, n);
    assert forall|g: Family| #[trigger] c.contains_key(g) implies rib::without_source_all(c[g], a)
        == c[g] by {
        assert forall|k: Nlri| #[trigger] c[g].contains_key(k) implies rib::without_source(
            c[g][k],
            a,
        ) == c[g][k] by {
            lemma_clear_at(m, a, g, k);
            assert(routes_at(c, g, k) == c[g][k]);
        }
        assert(rib::without_source_all(c[g], a) =~= c[g]);
    }
    assert(routes_without_all(c, a) =~= c);
}

proof fn lemma_clear_at(m: Routes, a: IpAddr, f: Family, n: Nlri)
    requires
        rib::one_per_source(routes_at(m, f, n)),
    ensures
        routes_at(routes_without_all(m, a), f, n) == rib::without_source(routes_at(m, f, n), a),
        !rib::has_source(routes_at(routes_without_all(m, a), f, n), a),
{
    let s = routes_at(m, f, n);
    let rest = rib::without_source(s, a);
    rib::lemma_without_source(s, a);
    rib::lemma_first_from_is_first(s, a);
    rib::lemma_first_from_is_first(rest, a);
    if rest.len() == 0 {
        assert(rest =~= Seq::<Path>::empty());
    }
}

/// The loss of a source calls for exactly the updates that its destinations call for, each under
/// its family.
pub proof fn law_loss_updates(
    s: Seq<(Family, Rib)>,
    source: Arc<Source>,
    f: Family,
    u: TableUpdate,
)
    ensures
        all_loss_updates(s, source).contains((f, u)) == (exists|i: int, j: int|
            0 <= i < s.len() && 0 <= j < s[i].1.entries@.len() && s[i].0 == f && rib::loss_update(
                (#[trigger] s[i].1.entries@[j]).0,
                s[i].1.entries@[j].1.entry@,
                source,
            ) == Some(u)),
    decreases s.len(),
{
    if s.len() > 0 {
        let t = s.drop_last();
        let l = rib::rib_list(s.last().1.entries@);
        law_loss_updates(t, source, f, u);
        lemma_loss_updates(s.last().0, l, source, f, u);
        let before = all_loss_updates(t, source);
        let own = rib::loss_updates(s.last().0, l, source);
        let all = all_loss_updates(s, source);
        assert(all == before + own);
        if all.contains((f, u)) {
            let i = choose|i: int| 0 <= i < all.len() && all[i] == (f, u);
            if i < before.len() {
                assert(before[i] == (f, u));
                let (x, y) = choose|x: int, y: int|
                    0 <= x < t.len() && 0 <= y < t[x].1.entries@.len() && t[x].0 == f
                        && rib::loss_update(
                        (#[trigger] t[x].1.entries@[y]).0,
                        t[x].1.entries@[y].1.entry@,
                        source,
                    ) == Some(u);
                assert(s[x].1.entries@[y] == t[x].1.entries@[y]);
            } else {
                assert(own[i - before.len()] == (f, u));
                let y = choose|y: int|
                    0 <= y < l.len() && rib::loss_update(
                        (#[trigger] l[y]).0,
                        l[y].1,
                        source,
                    ) == Some(u);
                assert(s[s.len() - 1].1.entries@[y].0 == l[y].0);
            }
        }
        if exists|i: int, j: int|
            0 <= i < s.len() && 0 <= j < s[i].1.entries@.len() && s[i].0 == f && rib::loss_update(
                (#[trigger] s[i].1.entries@[j]).0,
                s[i].1.entries@[j].1.entry@,
                source,
            ) == Some(u) {
            let (x, y) = choose|x: int, y: int|
                0 <= x < s.len() && 0 <= y < s[x].1.entries@.len() && s[x].0 == f
                    && rib::loss_update(
                    (#[trigger] s[x].1.entries@[y]).0,
                    s[x].1.entries@[y].1.entry@,
                    source,
                ) == Some(u);
            if x < t.len() {
                assert(t[x].1.entries@[y] == s[x].1.entries@[y]);
                let i = choose|i: int| 0 <= i < before.len() && before[i] == (f, u);
                assert(all[i] == (f, u));
            } else {
                assert(l[y].0 == s[x].1.entries@[y].0);
                let i = choose|i: int| 0 <= i < own.len() && own[i] == (f, u);
                assert(all[before.len() + i] == (f, u));
            }
        }
    }
}

/// The loss of a source that has no route calls for no update.
pub proof fn law_loss_of_nothing(t: Table, source: Arc<Source>)
    requires
        t.wf(),
        forall|f: Family, n: Nlri|
            !rib::has_source(#[trigger] routes_at(t.routes(), f, n), source.address),
    ensures
        all_loss_updates(t.master.entries@, source) == Seq::<(Family, TableUpdate)>::empty(),
{
    let s = t.master.entries@;
    let all = all_loss_updates(s, source);
    if all.len() > 0 {
        let (f, u) = all[0];
        assert(all.contains((f, u)));
        law_loss_updates(s, source, f, u);
        let (i, j) = choose|i: int, j: int|
            0 <= i < s.len() && 0 <= j < s[i].1.entries@.len() && s[i].0 == f && rib::loss_update(
                (#[trigger] s[i].1.entries@[j]).0,
                s[i].1.entries@[j].1.entry@,
                source,
            ) == Some(u);
        let d = s[i].1.entries@;
        lemma_ribs_ok(s);
        vecmap::lemma_entry(s, i);
        vecmap::lemma_entry(d, j);
        assert(routes_at(t.routes(), f, d[j].0) == d[j].1.entry@);
    }
    assert(all =~= Seq::<(Family, TableUpdate)>::empty());
}

/// A source that has been cleared is cleared again without an update.
pub proof fn law_second_clear_tells_nothing(before: Table, after: Table, source: Arc<Source>)
    requires
        before.wf(),
        after.wf(),
        after.routes() == routes_without_all(before.routes(), source.address),
    ensures
        all_loss_updates(after.master.entries@, source) == Seq::<(Family, TableUpdate)>::empty(),
        routes_without_all(after.routes(), source.address) == after.routes(),
{
    let m = before.routes();
    assert forall|f: Family, n: Nlri| rib::one_per_source(#[trigger] routes_at(m, f, n)) by {
        lemma_family_routes(before, f);
    }
    assert forall|f: Family, n: Nlri| !rib::has_source(
        #[trigger] routes_at(after.routes(), f, n),
        source.address,
    ) by {
        law_clear(m, source.address, f, n);
    }
    law_clear(m, source.address, Family::Reserved, arbitrary());
    law_loss_of_nothing(after, source);
}

proof fn lemma_loss_updates(
    own: Family,
    l: Seq<(Nlri, Seq<Path>)>,
    source: Arc<Source>,
    f: Family,
    u: TableUpdate,
)
    ensures
        rib::loss_updates(own, l, source).contains((f, u)) == (own == f && exists|j: int|
            0 <= j < l.len() && rib::loss_update((#[trigger] l[j]).0, l[j].1, source) == Some(u)),
    decreases l.len(),
{
    if l.len() > 0 {
        let t = l.drop_last();
        lemma_loss_updates(own, t, source, f, u);
        let before = rib::loss_updates(own, t, source);
        let all = rib::loss_updates(own, l, source);
        let last = rib::loss_update(l.last().0, l.last().1, source);
        if all.contains((f, u)) {
            let i = choose|i: int| 0 <= i < all.len() && all[i] == (f, u);
            if i < before.len() {
                assert(before[i] == (f, u));
                let j = choose|j: int|
                    0 <= j < t.len() && rib::loss_update((#[trigger] t[j]).0, t[j].1, source)
                        == Some(u);
                assert(l[j] == t[j]);
            } else {
                assert(l[l.len() - 1] == l.last());
            }
        }
        if own == f && exists|j: int|
            0 <= j < l.len() && rib::loss_update((#[trigger] l[j]).0, l[j].1, source) == Some(u) {
            let j = choose|j: int|
                0 <= j < l.len() && rib::loss_update((#[trigger] l[j]).0, l[j].1, source) == Some(
                    u,
                );
            if j < t.len() {
                assert(t[j] == l[j]);
                let i = choose|i: int| 0 <= i < before.len() && before[i] == (f, u);
                assert(all[i] == (f, u));
            } else {
                assert(all[before.len() as int] == (f, u));
            }
        }
    }
}

/// An update is passed on to exactly the peers whose sessions are up, have the family, and are to
/// be told about routes of where it came from. It never goes back there.
pub proof fn law_split_horizon(
    t: Table,
    from: Source,
    family: Family,
    u: TableUpdate,
    a: IpAddr,
)
    requires
        t.wf(),
    ensures
        t.deliveries(from, family, Some(u)).contains((a, PeerEvent::Broadcast(u))) == (
        t.bgp_sessions@.contains_key(a) && t.bgp_sessions@[a].source.state == State::Established
            && t.bgp_sessions@[a].families@.contains(family) && update::advertised(
            from.address,
            from.ibgp,
            a,
            t.bgp_sessions@[a].source.ibgp,
        )),
        !t.deliveries(from, family, Some(u)).contains(
            (from.address, PeerEvent::Broadcast(u)),
        ),
{
    lemma_delivered(t, from, family, u, a);
    lemma_delivered(t, from, family, u, from.address);
}

proof fn lemma_delivered(t: Table, from: Source, family: Family, u: TableUpdate, a: IpAddr)
    requires
        t.wf(),
    ensures
        t.deliveries(from, family, Some(u)).contains((a, PeerEvent::Broadcast(u))) == (
        t.bgp_sessions@.contains_key(a) && hears(from, family)((a, t.bgp_sessions@[a]))),
{
    let all = t.bgp_sessions.entries@;
    let heard = all.filter(hears(from, family));
    let out = t.deliveries(from, family, Some(u));
    let x = (a, PeerEvent::Broadcast(u));
    if out.contains(x) {
        let i = choose|i: int| 0 <= i < out.len() && out[i] == x;
        let e = heard[i];
        assert(heard.contains(e));
        lists::lemma_filter_contains(all, hears(from, family), e);
        let j = choose|j: int| 0 <= j < all.len() && all[j] == e;
        vecmap::lemma_entry(all, j);
    }
    if t.bgp_sessions@.contains_key(a) && hears(from, family)((a, t.bgp_sessions@[a])) {
        vecmap::lemma_key(all, a);
        let e = all[vecmap::key_pos(all, a)];
        assert(all.contains(e));
        lists::lemma_filter_contains(all, hears(from, family), e);
        let i = choose|i: int| 0 <= i < heard.len() && heard[i] == e;
        assert(out[i] == x);
    }
}

/// The routes to a destination are those that stand under its family and under it, and none where
/// nothing stands there.
pub proof fn law_routes_at(m: Routes, f: Family, n: Nlri)
    ensures
        m.contains_key(f) && m[f].contains_key(n) ==> routes_at(m, f, n) == m[f][n],
        !(m.contains_key(f) && m[f].contains_key(n)) ==> routes_at(m, f, n).len() == 0,
{
}

/// The routes of a table are those that its entries hold, each list under its family and
/// destination, and no others.
pub proof fn law_routes_of_a_table(t: Table, f: Family, n: Nlri, i: int, j: int)
    requires
        t.wf(),
    ensures
        0 <= i < t.master.entries@.len() && 0 <= j < t.master.entries@[i].1.entries@.len()
            ==> routes_at(
            t.routes(),
            t.master.entries@[i].0,
            t.master.entries@[i].1.entries@[j].0,
        ) == t.master.entries@[i].1.entries@[j].1.entry@,
        routes_at(t.routes(), f, n).len() > 0 ==> exists|x: int, y: int|
            0 <= x < t.master.entries@.len() && 0 <= y < t.master.entries@[x].1.entries@.len()
                && t.master.entries@[x].0 == f && (
            #[trigger] t.master.entries@[x].1.entries@[y]).0 == n,
{
    let s = t.master.entries@;
    lemma_ribs_ok(s);
    if 0 <= i < s.len() && 0 <= j < s[i].1.entries@.len() {
        vecmap::lemma_entry(s, i);
        vecmap::lemma_entry(s[i].1.entries@, j);
    }
    if routes_at(t.routes(), f, n).len() > 0 {
        vecmap::lemma_key(s, f);
        let x = vecmap::key_pos(s, f);
        let d = s[x].1.entries@;
        vecmap::lemma_key(d, n);
        assert(s[x].1.entries@[vecmap::key_pos(d, n)].0 == n);
    }
}

/// The table that is walked for a family holds the routes of that family, where any have ever come
/// in, and otherwise those of the reserved family.
pub proof fn law_walked(t: Table, f: Family, j: int)
    requires
        t.wf(),
        0 <= j < t.walked(f).entries@.len(),
    ensures
        t.walked(f).entries@[j].1.entry@ == routes_at(
            t.routes(),
            if t.routes().contains_key(f) {
                f
            } else {
                Family::Reserved
            },
            t.walked(f).entries@[j].0,
        ),
        t.walked(f).entries@[j].1.entry@.len() > 0,
        forall|i: int|
            0 <= i < t.walked(f).entries@.len() && i != j ==> (
            #[trigger] t.walked(f).entries@[i]).0 != t.walked(f).entries@[j].0,
{
    lemma_walked(t, f);
    vecmap::lemma_entry(t.walked(f).entries@, j);
    let d = t.walked(f).entries@;
    assert(rib::rib_map(d).contains_key(d[j].0));
}

/// What changes only the routes leaves all else of the table alone.
pub proof fn law_same_but_routes(t: Table, before: Table)
    requires
        t.same_but_routes(before),
    ensures
        t.local_source == before.local_source,
        t.disable_best_path_selection == before.disable_best_path_selection,
        t.roa == before.roa,
        t.bgp_sessions == before.bgp_sessions,
        t.bmp_sessions == before.bmp_sessions,
        t.rtr_sessions == before.rtr_sessions,
{
}

/// A route that comes in takes the place of the one that its source announced before, and leaves
/// all others in the order they had. It stands before the first of them that has a lower
/// preference, a longer AS path, a higher origin or a higher exit discriminator, and behind those
/// before that one. So it becomes the best route whenever it has a higher preference than the
/// first of the others, whatever else they carry. Where best routes are not looked for it goes in
/// front.
pub proof fn law_new_route_takes_its_place(t: Table, f: Family, n: Nlri, p: Path)
    requires
        t.wf(),
    ensures
        ({
            let unsorted = t.disable_best_path_selection;
            let rest = routes_at(t.routes(), f, n).filter(rib::not_by(p.source.address));
            let all = routes_at(routes_with(t.routes(), f, n, p, unsorted), f, n);
            &&& exists|k: int|
                {
                    &&& 0 <= k <= rest.len()
                    &&& all == #[trigger] rest.insert(k, p)
                    &&& unsorted ==> k == 0
                    &&& !unsorted ==> forall|j: int|
                        0 <= j < k ==> {
                            &&& path::local_preference((#[trigger] rest[j]).attrs.entry@)
                                >= path::local_preference(p.attrs.entry@)
                            &&& path::as_path_len(rest[j].attrs.entry@) <= path::as_path_len(
                                p.attrs.entry@,
                            )
                            &&& path::origin(rest[j].attrs.entry@) <= path::origin(p.attrs.entry@)
                            &&& path::med(rest[j].attrs.entry@) <= path::med(p.attrs.entry@)
                        }
                    &&& !unsorted && k < rest.len() ==> {
                        ||| path::local_preference(rest[k].attrs.entry@) < path::local_preference(
                            p.attrs.entry@,
                        )
                        ||| path::as_path_len(rest[k].attrs.entry@) > path::as_path_len(
                            p.attrs.entry@,
                        )
                        ||| path::origin(rest[k].attrs.entry@) > path::origin(p.attrs.entry@)
                        ||| path::med(rest[k].attrs.entry@) > path::med(p.attrs.entry@)
                    }
                }
            &&& rest.len() == 0 || path::local_preference(p.attrs.entry@) > path::local_preference(
                rest[0].attrs.entry@,
            ) ==> all[0] == p
        }),
{
    let unsorted = t.disable_best_path_selection;
    let s = routes_at(t.routes(), f, n);
    let a = p.source.address;
    let rest = s.filter(rib::not_by(a));
    lemma_family_routes(t, f);
    assert(rib::one_per_source(s));
    rib::law_others_are_left(s, a);
    let k = rib::place(rest, p.attrs, unsorted);
    rib::lemma_first_after_is_first(rest, p.attrs);
    assert(routes_at(routes_with(t.routes(), f, n, p, unsorted), f, n) == rest.insert(k, p));
    assert forall|j: int| 0 <= j < k && !unsorted implies {
        &&& path::local_preference((#[trigger] rest[j]).attrs.entry@) >= path::local_preference(
            p.attrs.entry@,
        )
        &&& path::as_path_len(rest[j].attrs.entry@) <= path::as_path_len(p.attrs.entry@)
        &&& path::origin(rest[j].attrs.entry@) <= path::origin(p.attrs.entry@)
        &&& path::med(rest[j].attrs.entry@) <= path::med(p.attrs.entry@)
    } by {
        path::law_better_in_one_respect(p.attrs, rest[j].attrs);
    }
    if rest.len() > 0 {
        path::law_better_in_one_respect(p.attrs, rest[0].attrs);
    }
    if k < rest.len() {
        path::law_better_in_one_respect(p.attrs, rest[k].attrs);
    }
}

/// A route that comes in is told of exactly when best routes are looked for and either it is now
/// the first, or the first so far came from its source, or there was none. What is told carries
/// the next hop of the route that came in, and the attributes and the source of the route that is
/// now the first. Whether the source is new there is told by whether any route was its.
pub proof fn law_when_a_new_route_is_told(t: Table, f: Family, n: Nlri, p: Path)
    requires
        t.wf(),
    ensures
        ({
            let before = routes_at(t.routes(), f, n);
            let after = routes_at(
                routes_with(t.routes(), f, n, p, t.disable_best_path_selection),
                f,
                n,
            );
            let told = t.insert_result(f, n, p).0;
            &&& after.len() > 0
            &&& told is Some == (!t.disable_best_path_selection && (before.len() == 0
                || before[0].source.address == p.source.address || after[0] == p))
            &&& told is Some ==> told->0 == TableUpdate::NewBest(
                n,
                p.nexthop,
                after[0].attrs,
                after[0].source,
            )
            &&& t.insert_result(f, n, p).1 == forall|i: int|
                0 <= i < before.len() ==> (#[trigger] before[i]).source.address
                    != p.source.address
        }),
{
    let s = routes_at(t.routes(), f, n);
    let a = p.source.address;
    let rest = rib::without_source(s, a);
    lemma_family_routes(t, f);
    assert(rib::one_per_source(s));
    rib::law_others_are_left(s, a);
    rib::lemma_without_source(s, a);
    rib::lemma_first_from_is_first(s, a);
    rib::lemma_first_after_is_first(rest, p.attrs);
    rib::lemma_with_path(s, p, t.disable_best_path_selection);
    let k = rib::place(rest, p.attrs, t.disable_best_path_selection);
    let all = rib::with_path(s, p, t.disable_best_path_selection);
    assert(all == rest.insert(k, p));
    if k > 0 {
        assert(all[0] == rest[0]);
    }
}

/// A route that is taken out is told of exactly when it was the only one, and then as withdrawn,
/// or the first, and then with the next hop, the attributes and the source of the route that is
/// now the first.
pub proof fn law_when_a_removal_is_told(t: Table, f: Family, n: Nlri, source: Arc<Source>)
    requires
        t.wf(),
    ensures
        ({
            let before = routes_at(t.routes(), f, n);
            let after = before.filter(rib::not_by(source.address));
            &&& routes_at(routes_without(t.routes(), f, n, source.address), f, n) == after
            &&& rib::removal_update(n, before, source) == if before.len() == 0 {
                None
            } else if after.len() == 0 {
                Some(TableUpdate::Withdrawn(n, source))
            } else if before[0].source.address == source.address {
                Some(
                    TableUpdate::NewBest(
                        n,
                        after[0].nexthop,
                        after[0].attrs,
                        after[0].source,
                    ),
                )
            } else {
                None
            }
        }),
{
    let s = routes_at(t.routes(), f, n);
    lemma_family_routes(t, f);
    assert(rib::one_per_source(s));
    rib::law_others_are_left(s, source.address);
    rib::lemma_first_from_is_first(s, source.address);
    law_remove(t.routes(), f, n, source.address, f, n);
    if rib::without_source(s, source.address).len() == 0 {
        assert(rib::without_source(s, source.address) =~= Seq::<Path>::empty());
    }
}

/// When a source is cleared, each destination keeps exactly the routes of all others, in the order
/// they had.
pub proof fn law_clear_leaves_the_others(t: Table, a: IpAddr, f: Family, n: Nlri)
    requires
        t.wf(),
    ensures
        routes_at(routes_without_all(t.routes(), a), f, n) == routes_at(t.routes(), f, n).filter(
            rib::not_by(a),
        ),
{
    lemma_family_routes(t, f);
    let s = routes_at(t.routes(), f, n);
    assert(rib::one_per_source(s));
    lemma_clear_at(t.routes(), a, f, n);
    rib::law_others_are_left(s, a);
}

/// When a source is cleared, what is told of a destination is this and nothing else: where no
/// route is left, that it is withdrawn; where its first route is gone and others are left, the
/// next hop and the attributes of the route that is now the first; and nothing where its first
/// route stays.
pub proof fn law_clear_tells_the_best(
    t: Table,
    source: Arc<Source>,
    f: Family,
    n: Nlri,
    u: TableUpdate,
)
    requires
        t.wf(),
        u.nlri() == n,
    ensures
        ({
            let before = routes_at(t.routes(), f, n);
            let after = routes_at(routes_without_all(t.routes(), source.address), f, n);
            all_loss_updates(t.master.entries@, source).contains((f, u)) == (before.len() > 0
                && before[0].source.address == source.address && u == if after.len() == 0 {
                TableUpdate::Withdrawn(n, source)
            } else {
                TableUpdate::NewBest(n, after[0].nexthop, after[0].attrs, source)
            })
        }),
{
    let s = t.master.entries@;
    let before = routes_at(t.routes(), f, n);
    lemma_family_routes(t, f);
    assert(rib::one_per_source(before));
    law_loss_updates(s, source, f, u);
    lemma_clear_at(t.routes(), source.address, f, n);
    rib::lemma_first_from_is_first(before, source.address);
    lemma_ribs_ok(s);
    if all_loss_updates(s, source).contains((f, u)) {
        let (i, j) = choose|i: int, j: int|
            0 <= i < s.len() && 0 <= j < s[i].1.entries@.len() && s[i].0 == f && rib::loss_update(
                (#[trigger] s[i].1.entries@[j]).0,
                s[i].1.entries@[j].1.entry@,
                source,
            ) == Some(u);
        law_routes_of_a_table(t, f, n, i, j);
    }
    if before.len() > 0 && before[0].source.address == source.address {
        law_routes_of_a_table(t, f, n, 0, 0);
        let (x, y) = choose|x: int, y: int|
            0 <= x < s.len() && 0 <= y < s[x].1.entries@.len() && s[x].0 == f && (
            #[trigger] s[x].1.entries@[y]).0 == n;
        law_routes_of_a_table(t, f, n, x, y);
        assert(s[x].1.entries@[y].1.entry@ == before);
    }
}

/// Clearing a source tells of no destination twice.
pub proof fn law_clear_tells_once(t: Table, source: Arc<Source>, i: int, j: int)
    requires
        t.wf(),
        0 <= i < j < all_loss_updates(t.master.entries@, source).len(),
    ensures
        ({
            let all = all_loss_updates(t.master.entries@, source);
            all[i].0 != all[j].0 || all[i].1.nlri() != all[j].1.nlri()
        }),
{
    lemma_told_once(t.master.entries@, source, i, j);
}

proof fn lemma_told_once(s: Seq<(Family, Rib)>, source: Arc<Source>, i: int, j: int)
    requires
        vecmap::distinct_keys(s),
        ribs_ok(s),
        0 <= i < j < all_loss_updates(s, source).len(),
    ensures
        ({
            let all = all_loss_updates(s, source);
            all[i].0 != all[j].0 || all[i].1.nlri() != all[j].1.nlri()
        }),
    decreases s.len(),
{
    let t = s.drop_last();
    let x = s.last();
    let before = all_loss_updates(t, source);
    let own = rib::loss_updates(x.0, rib::rib_list(x.1.entries@), source);
    let all = all_loss_updates(s, source);
    assert(all == before + own);
    assert forall|a: int, b: int| 0 <= a < b < t.len() implies (#[trigger] t[a]).0.id() != (
    #[trigger] t[b]).0.id() by {
        assert(t[a] == s[a] && t[b] == s[b]);
    }
    assert forall|a: int| 0 <= a < t.len() implies (#[trigger] t[a]).1.wf() && rib::rib_ok(
        rib::rib_map(t[a].1.entries@),
    ) by {
        assert(t[a] == s[a]);
    }
    assert(s[s.len() - 1] == x);
    if j < before.len() {
        lemma_told_once(t, source, i, j);
    } else {
        lemma_told_of(x.0, x.1.entries@, source);
        if i < before.len() {
            let (f, u) = before[i];
            assert(before.contains((f, u)));
            law_loss_updates(t, source, f, u);
            let (a, b) = choose|a: int, b: int|
                0 <= a < t.len() && 0 <= b < t[a].1.entries@.len() && t[a].0 == f
                    && rib::loss_update(
                    (#[trigger] t[a].1.entries@[b]).0,
                    t[a].1.entries@[b].1.entry@,
                    source,
                ) == Some(u);
            assert(s[a].0.id() != s[s.len() - 1].0.id());
            assert(own[j - before.len()].0 == x.0);
        } else {
            assert(own[i - before.len()].1.nlri() != own[j - before.len()].1.nlri());
        }
    }
}

/// What is told of the destinations `d` is told under their family, of each at most once.
proof fn lemma_told_of(f: Family, d: Seq<(Nlri, Destination)>, source: Arc<Source>)
    requires
        vecmap::distinct_keys(d),
    ensures
        ({
            let own = rib::loss_updates(f, rib::rib_list(d), source);
            &&& forall|i: int| 0 <= i < own.len() ==> (#[trigger] own[i]).0 == f
            &&& forall|i: int|
                0 <= i < own.len() ==> exists|l: int|
                    0 <= l < d.len() && (#[trigger] own[i]).1.nlri() == (#[trigger] d[l]).0
            &&& forall|i: int, j: int|
                0 <= i < j < own.len() ==> (#[trigger] own[i]).1.nlri() != (
                #[trigger] own[j]).1.nlri()
        }),
    decreases d.len(),
{
    if d.len() > 0 {
        let t = d.drop_last();
        let x = d.last();
        assert forall|a: int, b: int| 0 <= a < b < t.len() implies (#[trigger] t[a]).0.id() != (
        #[trigger] t[b]).0.id() by {
            assert(t[a] == d[a] && t[b] == d[b]);
        }
        lemma_told_of(f, t, source);
        assert(rib::rib_list(d).drop_last() =~= rib::rib_list(t));
        let before = rib::loss_updates(f, rib::rib_list(t), source);
        let own = rib::loss_updates(f, rib::rib_list(d), source);
        assert(d[d.len() - 1] == x);
        assert forall|i: int| 0 <= i < own.len() implies exists|l: int|
            0 <= l < d.len() && (#[trigger] own[i]).1.nlri() == (#[trigger] d[l]).0 by {
            if i < before.len() {
                assert(own[i] == before[i]);
                let l = choose|l: int|
                    0 <= l < t.len() && before[i].1.nlri() == (#[trigger] t[l]).0;
                assert(d[l].0 == own[i].1.nlri());
            } else {
                assert(d[d.len() - 1].0 == own[i].1.nlri());
            }
        }
        assert forall|i: int, j: int| 0 <= i < j < own.len() implies (
        #[trigger] own[i]).1.nlri() != (#[trigger] own[j]).1.nlri() by {
            assert(own[i] == before[i]);
            if j < before.len() {
                assert(own[j] == before[j]);
            } else {
                let l = choose|l: int|
                    0 <= l < t.len() && before[i].1.nlri() == (#[trigger] t[l]).0;
                assert(d[l].0.id() != d[d.len() - 1].0.id());
            }
        }
    }
}

/// An update goes to the peer at `a` exactly when there is a session with it that is up and has
/// the family, the update does not come from there, and not both it and where the update comes
/// from are of the own AS. Nobody gets it twice, and nothing else goes out.
pub proof fn law_who_is_told(t: Table, from: Source, family: Family, u: TableUpdate, a: IpAddr)
    requires
        t.wf(),
    ensures
        ({
            let out = t.deliveries(from, family, Some(u));
            &&& (exists|i: int| 0 <= i < out.len() && (#[trigger] out[i]).0 == a) == (
            t.bgp_sessions@.contains_key(a) && t.bgp_sessions@[a].source.state
                == State::Established && t.bgp_sessions@[a].families@.contains(family) && a
                != from.address && !(from.ibgp && t.bgp_sessions@[a].source.ibgp))
            &&& forall|i: int|
                0 <= i < out.len() ==> (#[trigger] out[i]).1 == PeerEvent::Broadcast(u)
            &&& forall|i: int, j: int|
                0 <= i < j < out.len() ==> (#[trigger] out[i]).0 != (#[trigger] out[j]).0
            &&& t.deliveries(from, family, None).len() == 0
        }),
{
    let out = t.deliveries(from, family, Some(u));
    let all = t.bgp_sessions.entries@;
    lemma_delivered(t, from, family, u, a);
    if out.contains((a, PeerEvent::Broadcast(u))) {
        let i = choose|i: int| 0 <= i < out.len() && out[i] == (a, PeerEvent::Broadcast(u));
        assert(out[i].0 == a);
    }
    if exists|i: int| 0 <= i < out.len() && (#[trigger] out[i]).0 == a {
        let i = choose|i: int| 0 <= i < out.len() && (#[trigger] out[i]).0 == a;
        assert(out[i] == (a, PeerEvent::Broadcast(u)));
    }
    lemma_filter_keeps_keys_apart(all, hears(from, family));
}

proof fn lemma_filter_keeps_keys_apart(
    s: Seq<(IpAddr, BgpSession)>,
    pred: spec_fn((IpAddr, BgpSession)) -> bool,
)
    requires
        vecmap::distinct_keys(s),
    ensures
        vecmap::distinct_keys(s.filter(pred)),
    decreases s.len(),
{
    if s.len() == 0 {
        lists::lemma_filter_empty(s, pred);
    } else {
        let t = s.drop_last();
        let x = s.last();
        assert(s =~= t.push(x));
        assert forall|a: int, b: int| 0 <= a < b < t.len() implies (#[trigger] t[a]).0.id() != (
        #[trigger] t[b]).0.id() by {
            assert(t[a] == s[a] && t[b] == s[b]);
        }
        lemma_filter_keeps_keys_apart(t, pred);
        lists::lemma_filter_push(t, pred, x);
        let f = t.filter(pred);
        let g = s.filter(pred);
        assert forall|a: int, b: int| 0 <= a < b < g.len() implies (#[trigger] g[a]).0.id() != (
        #[trigger] g[b]).0.id() by {
            assert(g[a] == f[a]);
            if b < f.len() {
                assert(g[b] == f[b]);
            } else {
                assert(f.contains(f[a]));
                lists::lemma_filter_contains(t, pred, f[a]);
                let l = choose|l: int| 0 <= l < t.len() && t[l] == f[a];
                assert(s[l].0.id() != s[s.len() - 1].0.id());
            }
        }
    }
}

/// Counting routes of a family on or off changes the number of that family by as much, and that of
/// no other. A family of which none was counted is not counted off.
pub proof fn law_accepted(s: BgpSession, f: Family, delta: i64, g: Family)
    requires
        s.can_accept(f, delta),
    ensures
        ({
            let after = s.accepted_after(f, delta);
            &&& s.accepted@.contains_key(f) ==> after.contains_key(f) && after[f]
                == s.accepted@[f] + delta
            &&& !s.accepted@.contains_key(f) && delta > 0 ==> after.contains_key(f) && after[f]
                == delta
            &&& !s.accepted@.contains_key(f) && delta <= 0 ==> !after.contains_key(f)
            &&& g != f ==> after.contains_key(g) == s.accepted@.contains_key(g) && (
            after.contains_key(g) ==> after[g] == s.accepted@[g])
        }),
{
}

/// The routes of a peer are listed by destination: all of them, in the order they have, and no
/// route of another, nor a destination to which the peer has none.
pub proof fn law_routes_of_a_peer(a: IpAddr, e: (Nlri, Seq<Path>), i: int)
    ensures
        announced_by(a)(e) is None == forall|j: int|
            0 <= j < e.1.len() ==> (#[trigger] e.1[j]).source.address != a,
        announced_by(a)(e) is Some ==> (announced_by(a)(e)->0).0 == e.0,
        announced_by(a)(e) is Some && 0 <= i < e.1.len() ==> (announced_by(a)(e)->0).1.contains(
            e.1[i],
        ) == (e.1[i].source.address == a),
        announced_by(a)(e) is Some && 0 <= i < (announced_by(a)(e)->0).1.len() ==> e.1.contains(
            (announced_by(a)(e)->0).1[i],
        ) && (announced_by(a)(e)->0).1[i].source.address == a,
{
    let own = e.1.filter(comes_from(a));
    if own.len() > 0 {
        assert(own.contains(own[0]));
        lists::lemma_filter_contains(e.1, comes_from(a), own[0]);
        let j = choose|j: int| 0 <= j < e.1.len() && e.1[j] == own[0];
        assert(e.1[j].source.address == a);
    }
    if exists|j: int| 0 <= j < e.1.len() && (#[trigger] e.1[j]).source.address == a {
        let j = choose|j: int| 0 <= j < e.1.len() && (#[trigger] e.1[j]).source.address == a;
        lists::lemma_filter_contains(e.1, comes_from(a), e.1[j]);
        assert(e.1.contains(e.1[j]));
    }
    if 0 <= i < e.1.len() {
        assert(e.1.contains(e.1[i]));
        lists::lemma_filter_contains(e.1, comes_from(a), e.1[i]);
    }
    if 0 <= i < own.len() {
        assert(own.contains(own[i]));
        lists::lemma_filter_contains(e.1, comes_from(a), own[i]);
    }
}

} // verus!
