//! The changes of the routing table that sessions ask for.
use vstd::prelude::*;
use crate::addr::IpAddr;
use crate::bgp::{Family, Nlri};
use crate::bmp;
use crate::event::TableChange;
use crate::path::{Path, TableUpdate};
use crate::peer::Global;
use crate::rib;
use crate::table;
use crate::table::{BgpSession, PeerEvent, Table};
use crate::time::Timestamp;
use crate::update;

verus! {

impl TableChange {
    /// Whether the change withdraws a route.
    pub open spec fn withdraws(self) -> bool {
        self.attrs.entry@.len() == 0
    }

    /// The route that the change announces at the time `now`.
    pub open spec fn path(self, now: Timestamp) -> Path {
        Path::spec_at(self.source, self.nexthop, self.attrs, now)
    }
}

impl Table {
    /// Whether the source of the change has a route to its destination.
    pub open spec fn is_announced(self, c: TableChange) -> bool {
        rib::has_source(table::routes_at(self.routes(), c.family, c.net), c.source.address)
    }

    /// How the change changes the number of routes that its source has announced.
    pub open spec fn delta(self, c: TableChange) -> i64 {
        if c.withdraws() {
            if self.is_announced(c) {
                -1i64
            } else {
                0
            }
        } else if self.is_announced(c) {
            0
        } else {
            1
        }
    }

    /// Whether the number of accepted routes of the session, if there is one, can follow the
    /// change.
    pub open spec fn can_count(self, c: TableChange) -> bool {
        let a = c.source.address;
        self.bgp_sessions@.contains_key(a) && self.delta(c) != 0
            ==> self.bgp_sessions@[a].can_accept(c.family, self.delta(c))
    }

    /// The update that the change calls for at the time `now`.
    pub open spec fn change_update(self, c: TableChange, now: Timestamp) -> Option<TableUpdate> {
        if c.withdraws() {
            rib::removal_update(
                c.net,
                table::routes_at(self.routes(), c.family, c.net),
                c.source,
            )
        } else {
            self.insert_result(c.family, c.net, c.path(now)).0
        }
    }

    /// The routes after the change at the time `now`.
    pub open spec fn changed_routes(self, c: TableChange, now: Timestamp) -> table::Routes {
        if c.withdraws() {
            table::routes_without(self.routes(), c.family, c.net, c.source.address)
        } else {
            table::routes_with(
                self.routes(),
                c.family,
                c.net,
                c.path(now),
                self.disable_best_path_selection,
            )
        }
    }

    /// Whether the sessions are those of `before`, with the number of accepted routes of the
    /// change's source counted on.
    pub open spec fn sessions_follow(self, before: Table, c: TableChange) -> bool {
        let a = c.source.address;
        if before.bgp_sessions@.contains_key(a) && before.delta(c) != 0 {
            let s = before.bgp_sessions@[a];
            &&& self.bgp_sessions@.contains_key(a)
            &&& self.bgp_sessions@ == before.bgp_sessions@.insert(a, self.bgp_sessions@[a])
            &&& self.bgp_sessions@[a] == (BgpSession { accepted: self.bgp_sessions@[a].accepted, ..s })
            &&& self.bgp_sessions@[a].accepted@ == s.accepted_after(c.family, before.delta(c))
        } else {
            self.bgp_sessions@ == before.bgp_sessions@
        }
    }

    /// Whether this is the table `before` after the change at the time `now`.
    pub open spec fn follows(self, before: Table, c: TableChange, now: Timestamp) -> bool {
        &&& self.local_source == before.local_source
        &&& self.disable_best_path_selection == before.disable_best_path_selection
        &&& self.roa == before.roa
        &&& self.bmp_sessions == before.bmp_sessions
        &&& self.rtr_sessions == before.rtr_sessions
        &&& self.routes() == before.changed_routes(c, now)
        &&& self.sessions_follow(before, c)
    }

    /// Whether the number of accepted routes of the session, if there is one, can follow the
    /// change.
    pub fn can_apply(&self, c: &TableChange) -> (r: bool)
        requires
            self.wf(),
        ensures
            r == self.can_count(*c),
    {
        let announced = self.has_route(c.family, &c.net, &c.source.address);
        match self.bgp_sessions.get(&c.source.address) {
            None => true,
            Some(s) => match s.accepted.get(&c.family) {
                None => true,
                Some(n) => if c.attrs.entry.len() == 0 {
                    !announced || *n > 0
                } else {
                    announced || *n < u64::MAX
                },
            },
        }
    }

    /// Counts a route of a session on or off.
    fn count_accepted(&mut self, a: &IpAddr, family: Family, delta: i64)
        requires
            old(self).wf(),
            old(self).bgp_sessions@.contains_key(*a) ==> old(self).bgp_sessions@[*a].can_accept(
                family,
                delta,
            ),
        ensures
            final(self).wf(),
            *final(self) == (Table { bgp_sessions: final(self).bgp_sessions, ..*old(self) }),
            if old(self).bgp_sessions@.contains_key(*a) {
                let s = old(self).bgp_sessions@[*a];
                let n = final(self).bgp_sessions@[*a];
                &&& final(self).bgp_sessions@.contains_key(*a)
                &&& final(self).bgp_sessions@ == old(self).bgp_sessions@.insert(*a, n)
                &&& n == (BgpSession { accepted: n.accepted, ..s })
                &&& n.accepted@ == s.accepted_after(family, delta)
            } else {
                final(self).bgp_sessions@ == old(self).bgp_sessions@
            },
    {
        match self.bgp_sessions.get_mut(a) {
            Some(session) => {
                session.update_accepted(family, delta);
            },
            None => {},
        }
    }
}

/// What monitoring stations are told of the change, if there are any.
pub open spec fn monitored(t: Table, g: Global, c: TableChange, now: Timestamp) -> Option<
    bmp::MessageView,
> {
    if t.bmp_sessions.entries@.len() == 0 {
        None
    } else {
        Some(
            bmp::MessageView::RouteMonitoring(
                bmp::RouteMonitoringView {
                    peer_header: g.peers@[c.source.address].bmp_header(),
                    payload: if c.withdraws() {
                        update::withdrawal_pdu(c.net)
                    } else {
                        update::path_pdu(c.path(now), c.net)
                    },
                },
            ),
        )
    }
}

/// Makes a change of the routing table at the time `now`. Gives back what is passed on to the
/// peers, and what all monitoring stations are told, if there are any.
pub fn apply_change_at(t: &mut Table, g: &Global, c: &TableChange, now: Timestamp) -> (r: (
    Vec<(IpAddr, PeerEvent)>,
    Option<bmp::Message>,
))
    requires
        old(t).wf(),
        old(t).can_count(*c),
        g.wf(),
        old(t).bmp_sessions.entries@.len() > 0 ==> g.peers@.contains_key(c.source.address),
    ensures
        final(t).wf(),
        final(t).follows(*old(t), *c, now),
        forall|a: IpAddr| #[trigger] old(t).counts_match(a) ==> final(t).counts_match(a),
        r.0@ == old(t).deliveries(*c.source, c.family, old(t).change_update(*c, now)),
        monitored(*old(t), *g, *c, now) == match r.1 {
            Some(m) => Some(m@),
            None => None,
        },
{
    let a: IpAddr = c.source.address;
    let r = if c.attrs.entry.len() == 0 {
        let (u, deleted) = t.remove(c.family, c.net, c.source.clone());
        let events = t.pass_on(&c.source, c.family, &u);
        if deleted {
            t.count_accepted(&a, c.family, -1);
        }
        let message = if t.bmp_sessions.entries.len() > 0 {
            match g.peers.get(&a) {
                Some(peer) => Some(
                    bmp::Message::RouteMonitoring(
                        bmp::RouteMonitoring {
                            peer_header: peer.to_bmp_ph(),
                            payload: update::to_withdrawal(c.net),
                        },
                    ),
                ),
                None => None,
            }
        } else {
            None
        };
        (events, message)
    } else {
        let (u, added) = t.insert_at(
            c.family,
            c.net,
            c.source.clone(),
            c.nexthop,
            c.attrs.clone(),
            now,
        );
        let events = t.pass_on(&c.source, c.family, &u);
        if added {
            t.count_accepted(&a, c.family, 1);
        }
        let message = if t.bmp_sessions.entries.len() > 0 {
            let p = Path::at(c.source.clone(), c.nexthop, c.attrs.clone(), now);
            match g.peers.get(&a) {
                Some(peer) => Some(
                    bmp::Message::RouteMonitoring(
                        bmp::RouteMonitoring {
                            peer_header: peer.to_bmp_ph(),
                            payload: p.to_payload(c.net),
                        },
                    ),
                ),
                None => None,
            }
        } else {
            None
        };
        (events, message)
    };
    proof {
        assert(t.follows(*old(t), *c, now));
        assert forall|a: IpAddr| #[trigger] old(t).counts_match(a) implies t.counts_match(a) by {
            law_counts_follow(*old(t), *t, *c, now, a);
        }
    }
    r
}

/// Makes a change of the routing table. Gives back what is passed on to the peers, and what all
/// monitoring stations are told, if there are any.
pub fn handle_table_update(t: &mut Table, g: &Global, c: &TableChange) -> (r: (
    Vec<(IpAddr, PeerEvent)>,
    Option<bmp::Message>,
))
    requires
        old(t).wf(),
        old(t).can_count(*c),
        g.wf(),
        old(t).bmp_sessions.entries@.len() > 0 ==> g.peers@.contains_key(c.source.address),
    ensures
        final(t).wf(),
        forall|a: IpAddr| #[trigger] old(t).counts_match(a) ==> final(t).counts_match(a),
        exists|now: Timestamp|
            {
                &&& #[trigger] final(t).follows(*old(t), *c, now)
                &&& r.0@ == old(t).deliveries(*c.source, c.family, old(t).change_update(*c, now))
                &&& monitored(*old(t), *g, *c, now) == match r.1 {
                    Some(m) => Some(m@),
                    None => None,
                }
            },
{
    apply_change_at(t, g, c, Timestamp::now())
}

/// The destinations among `m` that `a` has announced a route to.
pub open spec fn announced_nets(m: Map<Nlri, Seq<Path>>, a: IpAddr) -> Set<Nlri> {
    m.dom().filter(|n: Nlri| rib::has_source(m[n], a))
}

/// The number of accepted routes of a family, none where it has not been counted yet.
pub open spec fn count_of(accepted: Map<Family, u64>, f: Family) -> nat {
    if accepted.contains_key(f) {
        accepted[f] as nat
    } else {
        0
    }
}

impl Table {
    /// Whether the session at `a`, if there is one, has counted exactly the destinations that it
    /// has announced a route to.
    pub open spec fn counts_match(self, a: IpAddr) -> bool {
        self.bgp_sessions@.contains_key(a) ==> forall|f: Family|
            count_of(self.bgp_sessions@[a].accepted@, f) == announced_nets(
                #[trigger] table::family_routes(self.routes(), f),
                a,
            ).len()
    }
}

proof fn lemma_own_count_follows(before: Table, after: Table, c: TableChange, now: Timestamp)
    requires
        before.wf(),
        before.counts_match(c.source.address),
    ensures
        c.withdraws() || table::family_routes(before.routes(), c.family).dom().len() < u64::MAX
            ==> before.can_count(c),
        before.can_count(c) && after.follows(before, c, now) ==> after.counts_match(
            c.source.address,
        ),
{
    let a = c.source.address;
    let f = c.family;
    let n = c.net;
    if before.bgp_sessions@.contains_key(a) {
        let m = table::family_routes(before.routes(), f);
        let nets = announced_nets(m, a);
        table::lemma_family_routes(before, f);
        assert(nets.finite());
        assert(nets.contains(n) == before.is_announced(c)) by {
            if !m.contains_key(n) {
                assert(table::routes_at(before.routes(), f, n).len() == 0);
            }
        }
        let s = rib::routes_to(m, n);
        assert(rib::one_per_source(s));
        vstd::set_lib::lemma_len_subset(nets, m.dom());
        if c.withdraws() && before.is_announced(c) {
            assert(nets.len() > 0) by {
                if nets.len() == 0 {
                    nets.lemma_len0_is_empty();
                }
            }
        }
        if before.can_count(c) && after.follows(before, c, now) {
            assert forall|g: Family|
                count_of(after.bgp_sessions@[a].accepted@, g) == announced_nets(
                    #[trigger] table::family_routes(after.routes(), g),
                    a,
                ).len() by {
                let old_count = count_of(before.bgp_sessions@[a].accepted@, g);
                assert(old_count == announced_nets(
                    table::family_routes(before.routes(), g),
                    a,
                ).len());
                if g != f {
                    assert(table::family_routes(after.routes(), g) == table::family_routes(
                        before.routes(),
                        g,
                    ));
                } else if c.withdraws() {
                    if before.is_announced(c) {
                        let rest = rib::without_source(s, a);
                        rib::lemma_without_source(s, a);
                        rib::lemma_first_from_is_first(rest, a);
                        let m2 = table::family_routes(after.routes(), f);
                        assert(m2 == rib::set_routes(m, n, rest));
                        assert(announced_nets(m2, a) =~= nets.remove(n));
                    }
                } else {
                    let all = rib::with_path(s, c.path(now), before.disable_best_path_selection);
                    table::law_insert_touches_one(
                        before.routes(),
                        f,
                        n,
                        c.path(now),
                        before.disable_best_path_selection,
                        f,
                        n,
                    );
                    let m2 = table::family_routes(after.routes(), f);
                    assert(m2 == m.insert(n, all));
                    assert(rib::has_source(all, a));
                    assert(announced_nets(m2, a) =~= nets.insert(n));
                }
            }
        }
    }
}

proof fn lemma_other_count_follows(
    before: Table,
    after: Table,
    c: TableChange,
    now: Timestamp,
    a: IpAddr,
)
    requires
        before.counts_match(a),
        after.follows(before, c, now),
        a != c.source.address,
    ensures
        after.counts_match(a),
{
    let f = c.family;
    let n = c.net;
    let m = table::family_routes(before.routes(), f);
    let m2 = table::family_routes(after.routes(), f);
    let s = rib::routes_to(m, n);
    let unsorted = before.disable_best_path_selection;
    rib::lemma_without_source_keeps(s, c.source.address, a);
    rib::lemma_with_path_keeps(s, c.path(now), unsorted, a);
    assert(announced_nets(m2, a) =~= announced_nets(m, a));
    if before.bgp_sessions@.contains_key(a) {
        assert(after.bgp_sessions@[a] == before.bgp_sessions@[a]);
        assert forall|g: Family|
            count_of(after.bgp_sessions@[a].accepted@, g) == announced_nets(
                #[trigger] table::family_routes(after.routes(), g),
                a,
            ).len() by {
            assert(count_of(before.bgp_sessions@[a].accepted@, g) == announced_nets(
                table::family_routes(before.routes(), g),
                a,
            ).len());
            if g != f {
                assert(table::family_routes(after.routes(), g) == table::family_routes(
                    before.routes(),
                    g,
                ));
            }
        }
    }
}

/// A session that has counted the routes of its peer right can count every withdrawal of that peer,
/// and every announcement as long as fewer than 2^64 - 1 destinations of the family are known. A
/// change leaves every session that has counted the routes of its peer right with the right count,
/// whether the change is of that peer or of another.
pub proof fn law_counts_follow(
    before: Table,
    after: Table,
    c: TableChange,
    now: Timestamp,
    a: IpAddr,
)
    requires
        before.wf(),
        before.counts_match(a),
    ensures
        a == c.source.address && (c.withdraws() || table::family_routes(
            before.routes(),
            c.family,
        ).dom().len() < u64::MAX) ==> before.can_count(c),
        before.can_count(c) && after.follows(before, c, now) ==> after.counts_match(a),
{
    if a == c.source.address {
        lemma_own_count_follows(before, after, c, now);
    } else if after.follows(before, c, now) {
        lemma_other_count_follows(before, after, c, now, a);
    }
}

/// A route that is announced again, or withdrawn where there is none, changes no session, and so
/// no count.
pub proof fn law_known_change_counts_nothing(
    before: Table,
    after: Table,
    c: TableChange,
    now: Timestamp,
    a: IpAddr,
    f: Family,
)
    requires
        after.follows(before, c, now),
        c.withdraws() != before.is_announced(c),
    ensures
        after.bgp_sessions@ == before.bgp_sessions@,
        announced_nets(table::family_routes(after.routes(), f), a) == announced_nets(
            table::family_routes(before.routes(), f),
            a,
        ),
{
    if !c.withdraws() {
        let m = table::family_routes(before.routes(), c.family);
        let m2 = table::family_routes(after.routes(), c.family);
        let s = rib::routes_to(m, c.net);
        let unsorted = before.disable_best_path_selection;
        if a != c.source.address {
            rib::lemma_with_path_keeps(s, c.path(now), unsorted, a);
        } else {
            rib::lemma_with_path_has(s, c.path(now), unsorted);
        }
        assert(announced_nets(m2, a) =~= announced_nets(m, a));
    }
}

/// A change touches the routes to its own destination alone, and there the routes of its source
/// alone: those of the others stay, in the order they had. A change without attributes leaves no
/// route of its source there. One with attributes leaves exactly one, with the source, the next
/// hop and the attributes of the change.
pub proof fn law_routes_after_a_change(
    before: Table,
    after: Table,
    c: TableChange,
    now: Timestamp,
    f: Family,
    n: Nlri,
)
    requires
        before.wf(),
        after.follows(before, c, now),
    ensures
        ({
            let was = table::routes_at(before.routes(), f, n);
            let is = table::routes_at(after.routes(), f, n);
            let a = c.source.address;
            &&& f != c.family || n != c.net ==> is == was
            &&& f == c.family && n == c.net && c.attrs.entry@.len() == 0 ==> is == was.filter(
                rib::not_by(a),
            )
            &&& f == c.family && n == c.net && c.attrs.entry@.len() > 0 ==> exists|k: int|
                {
                    &&& 0 <= k < is.len()
                    &&& (#[trigger] is[k]).source == c.source
                    &&& is[k].nexthop == c.nexthop
                    &&& is[k].attrs == c.attrs
                    &&& is[k].timestamp == now
                    &&& is.remove(k) == was.filter(rib::not_by(a))
                }
        }),
{
    let was = table::routes_at(before.routes(), f, n);
    let is = table::routes_at(after.routes(), f, n);
    let unsorted = before.disable_best_path_selection;
    let p = c.path(now);
    if c.attrs.entry@.len() == 0 {
        table::law_remove(before.routes(), c.family, c.net, c.source.address, f, n);
        table::law_when_a_removal_is_told(before, c.family, c.net, c.source);
    } else {
        table::law_insert_touches_one(before.routes(), c.family, c.net, p, unsorted, f, n);
        table::law_new_route_takes_its_place(before, c.family, c.net, p);
        if f == c.family && n == c.net {
            let rest = was.filter(rib::not_by(c.source.address));
            let k = choose|k: int| 0 <= k <= rest.len() && is == #[trigger] rest.insert(k, p);
            assert(is[k] == p);
            assert(is.remove(k) =~= rest);
        }
    }
}

/// A change tells the peers what taking the route out tells them when it carries no attributes,
/// and what putting it in tells them when it carries some.
pub proof fn law_update_of_a_change(before: Table, c: TableChange, now: Timestamp)
    requires
        before.wf(),
    ensures
        ({
            let was = table::routes_at(before.routes(), c.family, c.net);
            let rest = was.filter(rib::not_by(c.source.address));
            let told = before.change_update(c, now);
            &&& c.attrs.entry@.len() == 0 ==> told == if was.len() == 0 {
                None
            } else if rest.len() == 0 {
                Some(TableUpdate::Withdrawn(c.net, c.source))
            } else if was[0].source.address == c.source.address {
                Some(
                    TableUpdate::NewBest(
                        c.net,
                        rest[0].nexthop,
                        rest[0].attrs,
                        rest[0].source,
                    ),
                )
            } else {
                None
            }
            &&& c.attrs.entry@.len() > 0 && before.disable_best_path_selection ==> told is None
            &&& c.attrs.entry@.len() > 0 && !before.disable_best_path_selection && rest.len() == 0
                ==> told == Some(
                TableUpdate::NewBest(c.net, c.nexthop, c.attrs, c.source),
            )
            &&& c.attrs.entry@.len() > 0 ==> told == before.insert_result(
                c.family,
                c.net,
                Path::spec_at(c.source, c.nexthop, c.attrs, now),
            ).0
            &&& c.attrs.entry@.len() > 0 && told is Some ==> told->0 is NewBest && told->0->NewBest_0
                == c.net && told->0->NewBest_1 == c.nexthop
        }),
{
    if c.attrs.entry@.len() == 0 {
        table::law_when_a_removal_is_told(before, c.family, c.net, c.source);
    } else {
        let p = c.path(now);
        let was = table::routes_at(before.routes(), c.family, c.net);
        let rest = was.filter(rib::not_by(c.source.address));
        table::law_when_a_new_route_is_told(before, c.family, c.net, p);
        table::law_new_route_takes_its_place(before, c.family, c.net, p);
    }
}

/// The number of accepted routes of the source's session goes up by one when the source had no
/// route to the destination and now has one, down by one when it had one and now has none, and
/// stays otherwise. Nothing else of that session changes, and no other session does.
pub proof fn law_accepted_after_a_change(
    before: Table,
    after: Table,
    c: TableChange,
    now: Timestamp,
    a: IpAddr,
    f: Family,
)
    requires
        before.wf(),
        before.can_count(c),
        after.follows(before, c, now),
        before.bgp_sessions@.contains_key(a),
    ensures
        ({
            let was = table::routes_at(before.routes(), c.family, c.net);
            let had = exists|i: int|
                0 <= i < was.len() && (#[trigger] was[i]).source.address == c.source.address;
            let old_one = before.bgp_sessions@[a];
            let new_one = after.bgp_sessions@[a];
            let own = a == c.source.address && f == c.family;
            &&& after.bgp_sessions@.dom() == before.bgp_sessions@.dom()
            &&& new_one.source == old_one.source
            &&& new_one.families == old_one.families
            &&& own && had && c.attrs.entry@.len() == 0 && old_one.accepted@.contains_key(f)
                ==> new_one.accepted@.contains_key(f) && new_one.accepted@[f]
                == old_one.accepted@[f] - 1
            &&& own && !had && c.attrs.entry@.len() > 0 ==> new_one.accepted@.contains_key(f)
                && new_one.accepted@[f] == 1 + if old_one.accepted@.contains_key(f) {
                old_one.accepted@[f] as int
            } else {
                0
            }
            &&& !own || had == (c.attrs.entry@.len() > 0) ==> new_one.accepted@.contains_key(f)
                == old_one.accepted@.contains_key(f) && (new_one.accepted@.contains_key(f)
                ==> new_one.accepted@[f] == old_one.accepted@[f])
        }),
{
    let was = table::routes_at(before.routes(), c.family, c.net);
    rib::lemma_first_from_is_first(was, c.source.address);
    if before.is_announced(c) {
        assert(was[rib::first_from(was, c.source.address)].source.address == c.source.address);
    }
    if before.bgp_sessions@.contains_key(c.source.address) && before.delta(c) != 0 {
        table::law_accepted(
            before.bgp_sessions@[c.source.address],
            c.family,
            before.delta(c),
            f,
        );
    }
    assert(after.bgp_sessions@.dom() =~= before.bgp_sessions@.dom());
}

/// Nothing but the routes and the sessions with peers is touched by a change.
pub proof fn law_rest_after_a_change(before: Table, after: Table, c: TableChange, now: Timestamp)
    requires
        after.follows(before, c, now),
    ensures
        after.local_source == before.local_source,
        after.disable_best_path_selection == before.disable_best_path_selection,
        after.roa == before.roa,
        after.bmp_sessions == before.bmp_sessions,
        after.rtr_sessions == before.rtr_sessions,
{
}

/// Monitoring stations are told of a change exactly when there are any: under the header of the
/// peer that the change comes from, with the destination among the withdrawn ones when the change
/// has no attributes and among the announced ones otherwise.
pub proof fn law_monitored(t: Table, g: Global, c: TableChange, now: Timestamp)
    ensures
        monitored(t, g, c, now) is None == (t.bmp_sessions.entries@.len() == 0),
        monitored(t, g, c, now) matches Some(m) ==> {
            &&& m is RouteMonitoring
            &&& m->RouteMonitoring_0.peer_header == g.peers@[c.source.address].bmp_header()
            &&& c.attrs.entry@.len() == 0 ==> m->RouteMonitoring_0.payload
                == update::withdrawal_pdu(c.net)
            &&& c.attrs.entry@.len() > 0 ==> m->RouteMonitoring_0.payload == update::path_pdu(
                Path::spec_at(c.source, c.nexthop, c.attrs, now),
                c.net,
            )
        },
{
}

} // verus!
