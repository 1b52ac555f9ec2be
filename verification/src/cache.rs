//! The sessions with caches of authorizations.
use std::sync::Arc;
use vstd::prelude::*;
use crate::addr::{IpAddr, IpNet, SocketAddr};
use crate::bgp::State;
use crate::event::{DisconnectedProto, SrvEvent};
use crate::lists;
use crate::path::Source;
use crate::roa;
use crate::roa::Roa;
use crate::rtr::Message;
use crate::table::Table;

verus! {

/// What a session with a cache keeps to itself.
pub struct CacheSession {
    pub sockaddr: SocketAddr,
    /// The source of the authorizations that the cache announces.
    pub source: Arc<Source>,
    /// The authorizations that have come in since the last end of data.
    pub pending: Vec<(IpNet, Roa)>,
}

/// The entries `m` after the authorizations in `s` have been added, those for IPv6 prefixes where
/// `v6` holds, else those for IPv4 prefixes.
pub open spec fn with_all(m: Map<Seq<u8>, Seq<Roa>>, s: Seq<(IpNet, Roa)>, v6: bool) -> Map<
    Seq<u8>,
    Seq<Roa>,
>
    decreases s.len(),
{
    if s.len() == 0 {
        m
    } else {
        let rest = with_all(m, s.drop_last(), v6);
        if s.last().0.spec_is_v6() == v6 {
            roa::with_roa(rest, roa::roa_key(s.last().0), s.last().1)
        } else {
            rest
        }
    }
}

/// The entries that are left when the cache at the address of `source` has announced exactly the
/// authorizations in `s`.
pub open spec fn replaced(
    m: Map<Seq<u8>, Seq<Roa>>,
    source: Source,
    s: Seq<(IpNet, Roa)>,
    v6: bool,
) -> Map<Seq<u8>, Seq<Roa>> {
    with_all(roa::without_address(m, source.address), s, v6)
}

impl CacheSession {
    /// The source of the authorizations of the cache at `sockaddr`.
    pub open spec fn source_at(sockaddr: SocketAddr) -> Source {
        Source {
            address: sockaddr.ip,
            ibgp: false,
            local_as: 0,
            local_addr: sockaddr.ip,
            state: State::Idle,
        }
    }

    /// The source is the one of the cache at the session's address, and each authorization that
    /// has come in carries it.
    pub open spec fn wf(self) -> bool {
        &&& *self.source == CacheSession::source_at(self.sockaddr)
        &&& forall|i: int|
            0 <= i < self.pending@.len() ==> (#[trigger] self.pending@[i]).1.source == self.source
    }

    /// A session in which nothing has come in yet. A reset query is to be sent first.
    pub fn start(sockaddr: SocketAddr) -> (r: (CacheSession, Message))
        ensures
            r.0.wf(),
            r.0.sockaddr == sockaddr,
            *r.0.source == CacheSession::source_at(sockaddr),
            r.0.pending@.len() == 0,
            r.1 == Message::ResetQuery,
    {
        let source = Arc::new(
            Source {
                address: sockaddr.ip,
                ibgp: false,
                local_as: 0,
                local_addr: sockaddr.ip,
                state: State::Idle,
            },
        );
        (CacheSession { sockaddr, source, pending: Vec::new() }, Message::ResetQuery)
    }

    /// Sees to a message of the cache. Authorizations are kept until the end of data, and then
    /// take the place of all that the cache has announced before.
    pub fn on_message(&mut self, t: &mut Table, msg: &Message)
        requires
            old(t).wf(),
            old(t).rtr_sessions@.contains_key(old(self).sockaddr),
            old(t).rtr_sessions@[old(self).sockaddr].rx_counter.count(msg.code()) < i64::MAX,
        ensures
            final(t).wf(),
            old(self).wf() ==> final(self).wf(),
            *final(t) == (Table {
                roa: final(t).roa,
                rtr_sessions: final(t).rtr_sessions,
                ..*old(t)
            }),
            final(t).rtr_sessions@.contains_key(old(self).sockaddr),
            final(t).rtr_sessions@ == old(t).rtr_sessions@.insert(
                old(self).sockaddr,
                final(t).rtr_sessions@[old(self).sockaddr],
            ),
            final(t).rtr_sessions@[old(self).sockaddr].counted_from(
                old(t).rtr_sessions@[old(self).sockaddr],
                *msg,
            ),
            final(self).sockaddr == old(self).sockaddr,
            final(self).source == old(self).source,
            match *msg {
                Message::Ipv4Prefix(p) => final(t).roa == old(t).roa && final(self).pending@
                    == old(self).pending@.push(
                    (
                        p.net,
                        Roa {
                            max_length: p.max_length,
                            as_number: p.as_number,
                            source: old(self).source,
                        },
                    ),
                ),
                Message::Ipv6Prefix(p) => final(t).roa == old(t).roa && final(self).pending@
                    == old(self).pending@.push(
                    (
                        p.net,
                        Roa {
                            max_length: p.max_length,
                            as_number: p.as_number,
                            source: old(self).source,
                        },
                    ),
                ),
                Message::EndOfData => {
                    &&& final(self).pending@.len() == 0
                    &&& roa::roa_entries(final(t).roa.v4) == replaced(
                        roa::roa_entries(old(t).roa.v4),
                        *old(self).source,
                        old(self).pending@,
                        false,
                    )
                    &&& roa::roa_entries(final(t).roa.v6) == replaced(
                        roa::roa_entries(old(t).roa.v6),
                        *old(self).source,
                        old(self).pending@,
                        true,
                    )
                },
                _ => final(t).roa == old(t).roa && final(self).pending == old(self).pending,
            },
    {
        let session = t.rtr_sessions.get_mut(&self.sockaddr).unwrap();
        session.inc_rx_counter(msg);
        let ghost session_map = t.rtr_sessions;
        match msg {
            Message::Ipv4Prefix(prefix) | Message::Ipv6Prefix(prefix) => {
                self.pending.push(
                    (
                        prefix.net,
                        Roa {
                            max_length: prefix.max_length,
                            as_number: prefix.as_number,
                            source: self.source.clone(),
                        },
                    ),
                );
            },
            Message::EndOfData => {
                t.roa.clear(self.source.clone());
                let ghost m4 = roa::roa_entries(t.roa.v4);
                let ghost m6 = roa::roa_entries(t.roa.v6);
                let ghost all = self.pending@;
                let mut i: usize = 0;
                assert(all.take(0).len() == 0);
                while i < self.pending.len()
                    invariant
                        i <= all.len(),
                        all == self.pending@,
                        all == old(self).pending@,
                        self.sockaddr == old(self).sockaddr,
                        self.source == old(self).source,
                        t.wf(),
                        *t == (Table { roa: t.roa, rtr_sessions: t.rtr_sessions, ..*old(t) }),
                        t.rtr_sessions == session_map,
                        roa::roa_entries(t.roa.v4) == with_all(m4, all.take(i as int), false),
                        roa::roa_entries(t.roa.v6) == with_all(m6, all.take(i as int), true),
                    decreases all.len() - i,
                {
                    let net: IpNet = self.pending[i].0;
                    let r = self.pending[i].1.clone();
                    assert(all.take(i + 1).drop_last() =~= all.take(i as int));
                    t.roa.insert(net, r);
                    i += 1;
                }
                assert(all.take(i as int) =~= all);
                self.pending = Vec::new();
            },
            _ => {},
        }
    }

    /// What the server is told when the session has ended.
    pub fn end(&self) -> (r: SrvEvent)
        ensures
            r == SrvEvent::Disconnected(DisconnectedProto::Rtr(self.sockaddr)),
    {
        SrvEvent::Disconnected(DisconnectedProto::Rtr(self.sockaddr))
    }
}

/// Whether `s` holds an authorization that says the same as `r`, for the prefix with the key `key`
/// of the kind that `v6` tells.
pub open spec fn announces(s: Seq<(IpNet, Roa)>, key: Seq<u8>, r: Roa, v6: bool) -> bool {
    exists|i: int|
        0 <= i < s.len() && roa::roa_key((#[trigger] s[i]).0) == key && s[i].0.spec_is_v6() == v6
            && roa::same_roa(s[i].1, r)
}

/// After the authorizations in `s` have been added to `m`, a list holds what it held and what `s`
/// announces for its prefix.
pub proof fn law_with_all_knows(
    m: Map<Seq<u8>, Seq<Roa>>,
    s: Seq<(IpNet, Roa)>,
    v6: bool,
    key: Seq<u8>,
    r: Roa,
)
    ensures
        roa::knows(roa::list_at(with_all(m, s, v6), key), r) == (roa::knows(
            roa::list_at(m, key),
            r,
        ) || announces(s, key, r, v6)),
    decreases s.len(),
{
    if s.len() > 0 {
        let t = s.drop_last();
        let x = s.last();
        law_with_all_knows(m, t, v6, key, r);
        let before = with_all(m, t, v6);
        let k = roa::roa_key(x.0);
        let e = roa::list_at(before, key);
        let f = roa::list_at(with_all(m, s, v6), key);
        let hit = x.0.spec_is_v6() == v6 && k == key;
        assert(s[s.len() - 1] == x);
        if x.0.spec_is_v6() == v6 {
            roa::law_announcement_adds(before, k, x.1, key);
        }
        if hit && !roa::knows(e, x.1) {
            assert(f == e.push(x.1));
            assert(f[e.len() as int] == x.1);
        } else {
            assert(f == e);
        }
        if announces(t, key, r, v6) {
            let i = choose|i: int|
                0 <= i < t.len() && roa::roa_key((#[trigger] t[i]).0) == key
                    && t[i].0.spec_is_v6() == v6 && roa::same_roa(t[i].1, r);
            assert(s[i] == t[i]);
        }
        if announces(s, key, r, v6) && !announces(t, key, r, v6) {
            let i = choose|i: int|
                0 <= i < s.len() && roa::roa_key((#[trigger] s[i]).0) == key
                    && s[i].0.spec_is_v6() == v6 && roa::same_roa(s[i].1, r);
            if i < t.len() {
                assert(t[i] == s[i]);
            }
            assert(hit);
            assert(roa::same_roa(x.1, r));
            if roa::knows(e, x.1) {
                let j = choose|j: int| 0 <= j < e.len() && roa::same_roa(#[trigger] e[j], x.1);
                assert(roa::same_roa(e[j], r));
            }
        }
        if roa::knows(f, r) && !roa::knows(e, r) {
            let j = choose|j: int| 0 <= j < f.len() && roa::same_roa(#[trigger] f[j], r);
            if j < e.len() {
                assert(e[j] == f[j]);
            }
        }
        if roa::knows(e, r) {
            let j = choose|j: int| 0 <= j < e.len() && roa::same_roa(#[trigger] e[j], r);
            assert(f[j] == e[j]);
        }
    }
}

/// Clearing a source undoes what it has announced: it leaves what clearing it before would have
/// left, which is all there was where the source had announced nothing yet.
pub proof fn law_clear_undoes_announcements(
    m: Map<Seq<u8>, Seq<Roa>>,
    a: IpAddr,
    s: Seq<(IpNet, Roa)>,
    v6: bool,
)
    requires
        forall|i: int| 0 <= i < s.len() ==> (#[trigger] s[i]).1.source.address == a,
    ensures
        roa::without_address(with_all(m, s, v6), a) == roa::without_address(m, a),
        (forall|k: Seq<u8>| #[trigger]
            m.contains_key(k) ==> m[k].len() > 0 && forall|i: int|
                0 <= i < m[k].len() ==> (#[trigger] m[k][i]).source.address != a)
            ==> roa::without_address(with_all(m, s, v6), a) == m,
    decreases s.len(),
{
    if s.len() > 0 {
        let t = s.drop_last();
        let x = s.last();
        assert forall|i: int| 0 <= i < t.len() implies (#[trigger] t[i]).1.source.address == a by {
            assert(t[i] == s[i]);
        }
        assert(s[s.len() - 1] == x);
        law_clear_undoes_announcements(m, a, t, v6);
        let before = with_all(m, t, v6);
        let after = with_all(m, s, v6);
        let k = roa::roa_key(x.0);
        let e = roa::list_at(before, k);
        lists::lemma_filter_push(e, roa::not_from(a), x.1);
        lists::lemma_filter_empty(Seq::<Roa>::empty(), roa::not_from(a));
        assert(roa::without_address(after, a) =~= roa::without_address(before, a));
    } else if forall|k: Seq<u8>| #[trigger]
        m.contains_key(k) ==> m[k].len() > 0 && forall|i: int|
            0 <= i < m[k].len() ==> (#[trigger] m[k][i]).source.address != a {
        assert forall|k: Seq<u8>| #[trigger] m.contains_key(k) implies m[k].filter(
            roa::not_from(a),
        ) == m[k] by {
            lists::lemma_filter_all(m[k], roa::not_from(a));
        }
        assert(roa::without_address(m, a) =~= m);
    }
}

/// At the end of data the authorizations of other caches are what they were, in the order they
/// had, and those of the cache itself are exactly the ones that it has announced since the last
/// end of data, each of them once.
pub proof fn law_end_of_data(
    m: Map<Seq<u8>, Seq<Roa>>,
    source: Source,
    s: Seq<(IpNet, Roa)>,
    v6: bool,
    key: Seq<u8>,
    r: Roa,
)
    requires
        forall|i: int| 0 <= i < s.len() ==> (#[trigger] s[i]).1.source.address == source.address,
        r.source.address == source.address,
    ensures
        roa::list_at(replaced(m, source, s, v6), key).filter(roa::not_from(source.address))
            == roa::list_at(m, key).filter(roa::not_from(source.address)),
        roa::knows(roa::list_at(replaced(m, source, s, v6), key), r) == announces(
            s,
            key,
            r,
            v6,
        ),
        forall|i: int, j: int|
            0 <= i < j < roa::list_at(replaced(m, source, s, v6), key).len() && (
            #[trigger] roa::list_at(replaced(m, source, s, v6), key)[i]).source.address
                == source.address ==> !roa::same_roa(
                roa::list_at(replaced(m, source, s, v6), key)[i],
                #[trigger] roa::list_at(replaced(m, source, s, v6), key)[j],
            ),
{
    let a = source.address;
    let c = roa::without_address(m, a);
    let t = replaced(m, source, s, v6);
    let e = roa::list_at(c, key);
    roa::law_clear_keeps_others(m, a, key);
    assert forall|i: int| 0 <= i < e.len() implies (#[trigger] e[i]).source.address != a by {
        lists::lemma_filter_contains(roa::list_at(m, key), roa::not_from(a), e[i]);
        assert(e.contains(e[i]));
    }
    law_with_all_knows(c, s, v6, key, r);
    law_clear_undoes_announcements(c, a, s, v6);
    roa::law_clear_keeps_others(c, a, key);
    roa::law_clear_keeps_others(t, a, key);
    lemma_own_once(c, a, s, v6, key);
}

/// Where a list holds nothing of `a`, what `a` announces stands in it once.
proof fn lemma_own_once(
    m: Map<Seq<u8>, Seq<Roa>>,
    a: IpAddr,
    s: Seq<(IpNet, Roa)>,
    v6: bool,
    key: Seq<u8>,
)
    requires
        forall|i: int|
            0 <= i < roa::list_at(m, key).len() ==> (#[trigger] roa::list_at(
                m,
                key,
            )[i]).source.address != a,
    ensures
        forall|i: int, j: int|
            0 <= i < j < roa::list_at(with_all(m, s, v6), key).len() && (#[trigger] roa::list_at(
                with_all(m, s, v6),
                key,
            )[i]).source.address == a ==> !roa::same_roa(
                roa::list_at(with_all(m, s, v6), key)[i],
                #[trigger] roa::list_at(with_all(m, s, v6), key)[j],
            ),
    decreases s.len(),
{
    if s.len() > 0 {
        let t = s.drop_last();
        let x = s.last();
        lemma_own_once(m, a, t, v6, key);
        let e = roa::list_at(with_all(m, t, v6), key);
        let f = roa::list_at(with_all(m, s, v6), key);
        assert forall|i: int, j: int|
            0 <= i < j < f.len() && (#[trigger] f[i]).source.address
                == a implies !roa::same_roa(f[i], #[trigger] f[j]) by {
            if f != e {
                assert(f == e.push(x.1));
                assert(f[i] == e[i]);
                if j < e.len() {
                    assert(f[j] == e[j]);
                }
            }
        }
    }
}

/// Authorizations are added one after the other, each under the key of its own prefix, and only
/// those of the kind of prefixes that is asked for.
pub proof fn law_added_in_turn(
    m: Map<Seq<u8>, Seq<Roa>>,
    s: Seq<(IpNet, Roa)>,
    x: (IpNet, Roa),
    v6: bool,
)
    ensures
        with_all(m, Seq::<(IpNet, Roa)>::empty(), v6) == m,
        (x.0.addr is V6) == v6 ==> with_all(m, s.push(x), v6) == roa::with_roa(
            with_all(m, s, v6),
            roa::roa_key(x.0),
            x.1,
        ),
        (x.0.addr is V6) != v6 ==> with_all(m, s.push(x), v6) == with_all(m, s, v6),
{
    assert(s.push(x).drop_last() =~= s);
}

/// What a cache announces comes from its own address.
pub proof fn law_source_of_a_cache(at: SocketAddr)
    ensures
        CacheSession::source_at(at).address == at.ip,
        CacheSession::source_at(at).local_addr == at.ip,
        CacheSession::source_at(at).local_as == 0,
        CacheSession::source_at(at).state == State::Idle,
        !CacheSession::source_at(at).ibgp,
{
}

} // verus!
