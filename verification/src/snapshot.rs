//! Copies of the routing table.
use vstd::prelude::*;
use crate::addr::{IpAddr, SocketAddr};
use crate::bgp;
use crate::bgp::{Family, Nlri};
use crate::path::Destination;
use crate::rib;
use crate::rib::Rib;
use crate::roa;
use crate::rtr::RtrSession;
use crate::table::{BgpSession, Table};
use crate::vecmap;
use crate::vecmap::VecMap;

verus! {

impl BgpSession {
    /// Whether this session is the same as `other`.
    pub open spec fn same_session(self, other: BgpSession) -> bool {
        &&& self.source == other.source
        &&& self.accepted.entries@ == other.accepted.entries@
        &&& self.families@ == other.families@
    }
}

impl RtrSession {
    /// Whether this session is the same as `other`.
    pub open spec fn same_session(self, other: RtrSession) -> bool {
        &&& self == (RtrSession { rx_counter: self.rx_counter, ..other })
        &&& self.rx_counter.counts() == other.rx_counter.counts()
    }
}

impl Table {
    /// Whether this table holds what `other` holds: the same routes, authorizations and sessions,
    /// all in the same order.
    pub open spec fn copy_of(self, other: Table) -> bool {
        &&& self.local_source == other.local_source
        &&& self.disable_best_path_selection == other.disable_best_path_selection
        &&& self.master.entries@.len() == other.master.entries@.len()
        &&& forall|i: int|
            0 <= i < self.master.entries@.len() ==> (#[trigger] self.master.entries@[i]).0
                == other.master.entries@[i].0 && rib::rib_list(self.master.entries@[i].1.entries@)
                == rib::rib_list(other.master.entries@[i].1.entries@)
        &&& roa::roa_entries(self.roa.v4) == roa::roa_entries(other.roa.v4)
        &&& roa::roa_entries(self.roa.v6) == roa::roa_entries(other.roa.v6)
        &&& self.bgp_sessions.entries@.len() == other.bgp_sessions.entries@.len()
        &&& forall|i: int|
            0 <= i < self.bgp_sessions.entries@.len() ==> (
            #[trigger] self.bgp_sessions.entries@[i]).0 == other.bgp_sessions.entries@[i].0
                && self.bgp_sessions.entries@[i].1.same_session(other.bgp_sessions.entries@[i].1)
        &&& self.bmp_sessions.entries@ == other.bmp_sessions.entries@
        &&& self.rtr_sessions.entries@.len() == other.rtr_sessions.entries@.len()
        &&& forall|i: int|
            0 <= i < self.rtr_sessions.entries@.len() ==> (
            #[trigger] self.rtr_sessions.entries@[i]).0 == other.rtr_sessions.entries@[i].0
                && self.rtr_sessions.entries@[i].1.same_session(other.rtr_sessions.entries@[i].1)
    }
}

/// Destinations that are walked alike are found alike.
proof fn lemma_same_list(s: Seq<(Nlri, Destination)>, t: Seq<(Nlri, Destination)>)
    requires
        rib::rib_list(s) == rib::rib_list(t),
        vecmap::distinct_keys(s),
    ensures
        vecmap::distinct_keys(t),
        rib::rib_map(s) == rib::rib_map(t),
{
    assert(rib::rib_list(s).len() == s.len() && rib::rib_list(t).len() == t.len());
    assert forall|i: int| 0 <= i < s.len() implies (#[trigger] s[i]).0 == t[i].0 && s[i].1.entry@
        == t[i].1.entry@ by {
        assert(rib::rib_list(s)[i] == rib::rib_list(t)[i]);
    }
    vecmap::lemma_same_keys(s, t);
    assert(rib::rib_map(s) =~= rib::rib_map(t));
}

/// A copy of a table that is well formed is well formed, and has the same routes.
pub proof fn lemma_copy(t: Table, other: Table)
    requires
        t.copy_of(other),
        other.wf(),
    ensures
        t.wf(),
        t.routes() == other.routes(),
{
    let s = other.master.entries@;
    let c = t.master.entries@;
    vecmap::lemma_same_keys(s, c);
    assert forall|i: int| 0 <= i < c.len() implies (#[trigger] c[i]).1.wf() && rib::rib_ok(
        rib::rib_map(c[i].1.entries@),
    ) && rib::rib_map(c[i].1.entries@) == rib::rib_map(s[i].1.entries@) by {
        assert(s[i].1.wf());
        lemma_same_list(s[i].1.entries@, c[i].1.entries@);
    }
    assert forall|f: Family| #[trigger] other.routes().contains_key(f) implies t.routes()[f]
        == other.routes()[f] by {
        vecmap::lemma_key(s, f);
        let i = vecmap::key_pos(s, f);
        assert(c[i].0 == s[i].0);
    }
    assert(t.routes() =~= other.routes());
    vecmap::lemma_same_keys(other.bgp_sessions.entries@, t.bgp_sessions.entries@);
    assert forall|a: IpAddr| #[trigger] t.bgp_sessions@.contains_key(a) implies t.bgp_sessions@[a].wf()
        && t.bgp_sessions@[a].source.address == a by {
        vecmap::lemma_key(other.bgp_sessions.entries@, a);
        let i = vecmap::key_pos(other.bgp_sessions.entries@, a);
        assert(t.bgp_sessions.entries@[i].0 == a);
    }
    vecmap::lemma_same_keys(other.rtr_sessions.entries@, t.rtr_sessions.entries@);
}

fn copy_rib(t: &Rib) -> (r: Rib)
    ensures
        rib::rib_list(r.entries@) == rib::rib_list(t.entries@),
{
    let mut entries: Vec<(Nlri, Destination)> = Vec::new();
    let mut i: usize = 0;
    let ghost all = rib::rib_list(t.entries@);
    assert(rib::rib_list(entries@) =~= all.take(0));
    while i < t.entries.len()
        invariant
            i <= t.entries@.len(),
            all == rib::rib_list(t.entries@),
            rib::rib_list(entries@) == all.take(i as int),
        decreases t.entries@.len() - i,
    {
        let e = &t.entries[i];
        let ghost before = entries@;
        entries.push((e.0, e.1.clone()));
        assert(rib::rib_list(entries@) =~= rib::rib_list(before).push(all[i as int]));
        assert(all.take(i + 1) =~= all.take(i as int).push(all[i as int]));
        i += 1;
    }
    assert(all.take(i as int) =~= all);
    VecMap { entries }
}

fn copy_master(m: &VecMap<Family, Rib>) -> (r: VecMap<Family, Rib>)
    ensures
        r.entries@.len() == m.entries@.len(),
        forall|i: int|
            0 <= i < r.entries@.len() ==> (#[trigger] r.entries@[i]).0 == m.entries@[i].0
                && rib::rib_list(r.entries@[i].1.entries@) == rib::rib_list(
                m.entries@[i].1.entries@,
            ),
{
    let mut entries: Vec<(Family, Rib)> = Vec::new();
    let mut i: usize = 0;
    while i < m.entries.len()
        invariant
            i <= m.entries@.len(),
            entries@.len() == i,
            forall|j: int|
                0 <= j < i ==> (#[trigger] entries@[j]).0 == m.entries@[j].0 && rib::rib_list(
                    entries@[j].1.entries@,
                ) == rib::rib_list(m.entries@[j].1.entries@),
        decreases m.entries@.len() - i,
    {
        let e = &m.entries[i];
        entries.push((e.0, copy_rib(&e.1)));
        i += 1;
    }
    VecMap { entries }
}

fn copy_bgp_sessions(m: &VecMap<IpAddr, BgpSession>) -> (r: VecMap<IpAddr, BgpSession>)
    ensures
        r.entries@.len() == m.entries@.len(),
        forall|i: int|
            0 <= i < r.entries@.len() ==> (#[trigger] r.entries@[i]).0 == m.entries@[i].0
                && r.entries@[i].1.same_session(m.entries@[i].1),
{
    let mut entries: Vec<(IpAddr, BgpSession)> = Vec::new();
    let mut i: usize = 0;
    while i < m.entries.len()
        invariant
            i <= m.entries@.len(),
            entries@.len() == i,
            forall|j: int|
                0 <= j < i ==> (#[trigger] entries@[j]).0 == m.entries@[j].0
                    && entries@[j].1.same_session(m.entries@[j].1),
        decreases m.entries@.len() - i,
    {
        let e = &m.entries[i];
        entries.push((e.0, e.1.clone()));
        i += 1;
    }
    VecMap { entries }
}

fn copy_rtr_sessions(m: &VecMap<SocketAddr, RtrSession>) -> (r: VecMap<SocketAddr, RtrSession>)
    ensures
        r.entries@.len() == m.entries@.len(),
        forall|i: int|
            0 <= i < r.entries@.len() ==> (#[trigger] r.entries@[i]).0 == m.entries@[i].0
                && r.entries@[i].1.same_session(m.entries@[i].1),
{
    let mut entries: Vec<(SocketAddr, RtrSession)> = Vec::new();
    let mut i: usize = 0;
    while i < m.entries.len()
        invariant
            i <= m.entries@.len(),
            entries@.len() == i,
            forall|j: int|
                0 <= j < i ==> (#[trigger] entries@[j]).0 == m.entries@[j].0
                    && entries@[j].1.same_session(m.entries@[j].1),
        decreases m.entries@.len() - i,
    {
        let e = &m.entries[i];
        entries.push((e.0, e.1.clone()));
        i += 1;
    }
    VecMap { entries }
}

impl Clone for Table {
    fn clone(&self) -> (r: Self)
        ensures
            r.copy_of(*self),
            self.wf() ==> r.wf() && r.routes() == self.routes(),
    {
        let r = Table {
            local_source: self.local_source.clone(),
            disable_best_path_selection: self.disable_best_path_selection,
            master: copy_master(&self.master),
            roa: self.roa.clone(),
            bgp_sessions: copy_bgp_sessions(&self.bgp_sessions),
            bmp_sessions: VecMap { entries: bgp::copied(&self.bmp_sessions.entries) },
            rtr_sessions: copy_rtr_sessions(&self.rtr_sessions),
        };
        proof {
            if self.wf() {
                lemma_copy(r, *self);
            }
        }
        r
    }
}

/// A copy of a table has the same sessions, each with the same numbers of accepted routes and the
/// same families, and the same authorizations, stations and caches.
pub proof fn law_copy(t: Table, other: Table, a: IpAddr)
    requires
        t.copy_of(other),
        other.wf(),
    ensures
        t.routes() == other.routes(),
        t.local_source == other.local_source,
        t.disable_best_path_selection == other.disable_best_path_selection,
        roa::roa_entries(t.roa.v4) == roa::roa_entries(other.roa.v4),
        roa::roa_entries(t.roa.v6) == roa::roa_entries(other.roa.v6),
        t.bgp_sessions@.contains_key(a) == other.bgp_sessions@.contains_key(a),
        t.bgp_sessions@.contains_key(a) ==> {
            &&& t.bgp_sessions@[a].source == other.bgp_sessions@[a].source
            &&& t.bgp_sessions@[a].families@ == other.bgp_sessions@[a].families@
            &&& t.bgp_sessions@[a].accepted@ == other.bgp_sessions@[a].accepted@
        },
        t.bmp_sessions@ == other.bmp_sessions@,
        t.rtr_sessions@.dom() == other.rtr_sessions@.dom(),
{
    lemma_copy(t, other);
    let s = other.bgp_sessions.entries@;
    let c = t.bgp_sessions.entries@;
    vecmap::lemma_same_keys(s, c);
    if other.bgp_sessions@.contains_key(a) {
        vecmap::lemma_key(s, a);
        vecmap::lemma_key(c, a);
        let i = vecmap::key_pos(s, a);
        assert(c[i].0 == a);
    }
    vecmap::lemma_same_keys(other.rtr_sessions.entries@, t.rtr_sessions.entries@);
    assert(t.rtr_sessions@.dom() =~= other.rtr_sessions@.dom());
}

} // verus!
