//! What the server does about connections and events.
use std::sync::Arc;
use vstd::prelude::*;
use crate::addr;
use crate::addr::{IpAddr, IpNet, SocketAddr};
use crate::bgp;
use crate::bgp::{Family, Nlri, NotificationCode, State};
use crate::bmp;
use crate::counter::MessageCounter;
use crate::event::Proto;
use crate::lists;
use crate::path::{Destination, Path, Source, TableUpdate};
use crate::peer;
use crate::peer::{DynamicPeer, Global, Peer, PeerGroup};
use crate::rib;
use crate::rib::Rib;
use crate::rtr::RtrSession;
use crate::table;
use crate::table::{BgpSession, PeerEvent, Table};
use crate::time::Timestamp;
use crate::update;
use crate::vecmap;

verus! {

/// The seconds before a connection is tried again.
pub const RETRY_SECS: u64 = 5;

/// Whether a connection of the protocol to or from `sockaddr` is wanted: one of BGP is not while
/// there is a session under that address. The address is looked up as it stands: an IPv4-mapped
/// IPv6 address is not taken for the IPv4 address that it carries, under which its session is kept.
pub fn is_wanted(t: &Table, proto: Proto, sockaddr: &SocketAddr) -> (r: bool)
    requires
        t.wf(),
    ensures
        r == !(proto == Proto::Bgp && t.bgp_sessions@.contains_key(sockaddr.ip)),
{
    !(proto == Proto::Bgp && t.bgp_sessions.contains_key(&sockaddr.ip))
}

/// What is passed on of the updates of `source`, one after the other.
pub open spec fn all_deliveries(
    t: Table,
    source: Source,
    updates: Seq<(Family, TableUpdate)>,
) -> Seq<(IpAddr, PeerEvent)>
    decreases updates.len(),
{
    if updates.len() == 0 {
        Seq::empty()
    } else {
        all_deliveries(t, source, updates.drop_last()) + t.deliveries(
            source,
            updates.last().0,
            Some(updates.last().1),
        )
    }
}

/// Passes on updates of `source`.
fn pass_on_all(t: &Table, source: &Source, updates: &Vec<(Family, TableUpdate)>) -> (r: Vec<
    (IpAddr, PeerEvent),
>)
    ensures
        r@ == all_deliveries(*t, *source, updates@),
{
    let mut r: Vec<(IpAddr, PeerEvent)> = Vec::new();
    let mut i: usize = 0;
    assert(updates@.take(0).len() == 0);
    while i < updates.len()
        invariant
            i <= updates@.len(),
            r@ == all_deliveries(*t, *source, updates@.take(i as int)),
        decreases updates@.len() - i,
    {
        let mut events = t.broadcast(source, updates[i].0, &updates[i].1);
        r.append(&mut events);
        assert(updates@.take(i + 1).drop_last() =~= updates@.take(i as int));
        i += 1;
    }
    assert(updates@.take(i as int) =~= updates@);
    r
}

/// What the end of a session with a peer comes to.
pub struct PeerDown {
    /// What is passed on to the other peers.
    pub events: Vec<(IpAddr, PeerEvent)>,
    /// What all monitoring stations are told, if there are any.
    pub message: Option<bmp::Message>,
    /// Where the peer is to be connected again.
    pub retry: Option<SocketAddr>,
}

/// Sees to the end of the session with the peer that is `source`, at the time `now`: its routes
/// are taken out, and the peer is forgotten or taken back to where it was. `reason` is what
/// monitoring stations are told of why.
pub fn on_peer_down_at(
    t: &mut Table,
    g: &mut Global,
    source: Arc<Source>,
    reason: u8,
    now: Timestamp,
) -> (r: PeerDown)
    requires
        old(t).wf(),
        old(g).wf(),
        old(g).peers@.contains_key(source.address),
    ensures
        final(t).wf(),
        final(g).wf(),
        *final(t) == (Table {
            bgp_sessions: final(t).bgp_sessions,
            master: final(t).master,
            ..*old(t)
        }),
        final(t).bgp_sessions@ == old(t).bgp_sessions@.remove(source.address),
        final(t).routes() == table::routes_without_all(old(t).routes(), source.address),
        r.events@ == all_deliveries(
            *final(t),
            *source,
            table::all_loss_updates(old(t).master.entries@, source),
        ),
        match r.message {
            Some(m) => old(t).bmp_sessions.entries@.len() > 0 && m@
                == bmp::MessageView::PeerDownNotification(
                old(g).peers@[source.address].bmp_down(reason),
            ),
            None => old(t).bmp_sessions.entries@.len() == 0,
        },
        *final(g) == (Global { peers: final(g).peers, ..*old(g) }),
        if old(g).peers@[source.address].delete_on_disconnected {
            &&& final(g).peers@ == old(g).peers@.remove(source.address)
            &&& r.retry is None
        } else {
            let a = source.address;
            let p = old(g).peers@[a];
            let q = final(g).peers@[a];
            &&& final(g).peers@.contains_key(a)
            &&& final(g).peers@ == old(g).peers@.insert(a, q)
            &&& q == (Peer {
                state: State::Idle,
                downtime: now,
                accepted: q.accepted,
                remote_cap: q.remote_cap,
                ..p
            })
            &&& q.accepted@ == Map::<Family, u64>::empty()
            &&& q.remote_cap@.len() == 0
            &&& r.retry == (if p.passive {
                None
            } else {
                Some(SocketAddr { ip: a, port: p.remote_port })
            })
        },
{
    let addr: IpAddr = source.address;
    t.bgp_sessions.remove(&addr);
    let updates = t.clear(source.clone());
    let events = pass_on_all(t, &source, &updates);
    let peer = g.peers.get_mut(&addr).unwrap();
    let message = if t.bmp_sessions.entries.len() > 0 {
        Some(bmp::Message::PeerDownNotification(peer.to_bmp_down(reason)))
    } else {
        None
    };
    if peer.delete_on_disconnected {
        g.peers.remove(&addr);
        assert(g.peers@ =~= old(g).peers@.remove(addr));
        PeerDown { events, message, retry: None }
    } else {
        peer.reset_at(now);
        let retry = if peer.passive {
            None
        } else {
            Some(SocketAddr { ip: addr, port: peer.remote_port })
        };
        PeerDown { events, message, retry }
    }
}

/// Sees to the end of the connection to a monitoring station, which is to be connected again.
pub fn on_station_down(t: &mut Table, sockaddr: SocketAddr) -> (r: SocketAddr)
    requires
        old(t).wf(),
    ensures
        final(t).wf(),
        *final(t) == (Table { bmp_sessions: final(t).bmp_sessions, ..*old(t) }),
        final(t).bmp_sessions@ == old(t).bmp_sessions@.remove(sockaddr),
        r == sockaddr,
{
    t.bmp_sessions.remove(&sockaddr);
    sockaddr
}

/// Sees to the end of the session with a cache, which is to be connected again if it is still
/// configured.
pub fn on_cache_down(t: &Table, sockaddr: SocketAddr) -> (r: Option<SocketAddr>)
    requires
        t.wf(),
    ensures
        r == (if t.rtr_sessions@.contains_key(sockaddr) {
            Some(sockaddr)
        } else {
            None
        }),
{
    if t.rtr_sessions.contains_key(&sockaddr) {
        Some(sockaddr)
    } else {
        None
    }
}

/// Has a peer forgotten: at once, or with the end of its session, which the event brings about.
pub fn on_deconfigured(t: &Table, g: &mut Global, addr: IpAddr) -> (r: Option<(IpAddr, PeerEvent)>)
    requires
        t.wf(),
        old(g).wf(),
    ensures
        final(g).wf(),
        *final(g) == (Global { peers: final(g).peers, ..*old(g) }),
        if !old(g).peers@.contains_key(addr) {
            r is None && final(g).peers@ == old(g).peers@
        } else if t.bgp_sessions@.contains_key(addr) {
            &&& r == Some((addr, PeerEvent::Notification(NotificationCode::PeerDeconfigured)))
            &&& final(g).peers@ == old(g).peers@.insert(
                addr,
                Peer { delete_on_disconnected: true, ..old(g).peers@[addr] },
            )
        } else {
            r is None && final(g).peers@ == old(g).peers@.remove(addr)
        },
{
    if !g.peers.contains_key(&addr) {
        return None;
    }
    if t.bgp_sessions.contains_key(&addr) {
        let peer = g.peers.get_mut(&addr).unwrap();
        peer.delete_on_disconnected = true;
        Some((addr, PeerEvent::Notification(NotificationCode::PeerDeconfigured)))
    } else {
        g.peers.remove(&addr);
        None
    }
}

/// Notes the connection to a cache that came up at the time `now`.
pub fn on_cache_up_at(t: &mut Table, sockaddr: SocketAddr, local: SocketAddr, now: Timestamp)
    requires
        old(t).wf(),
        old(t).rtr_sessions@.contains_key(sockaddr),
    ensures
        final(t).wf(),
        *final(t) == (Table { rtr_sessions: final(t).rtr_sessions, ..*old(t) }),
        final(t).rtr_sessions@ == old(t).rtr_sessions@.insert(
            sockaddr,
            RtrSession {
                local_address: Some(local),
                uptime: now,
                ..old(t).rtr_sessions@[sockaddr]
            },
        ),
{
    let s = t.rtr_sessions.get_mut(&sockaddr).unwrap();
    s.local_address = Some(local);
    s.uptime = now;
}

/// Whether one of the prefixes in `s` covers `addr`.
pub open spec fn covered(s: Seq<DynamicPeer>, addr: IpAddr) -> bool {
    exists|i: int| 0 <= i < s.len() && (#[trigger] s[i]).prefix.covers(addr)
}

/// Whether peers at `addr` are accepted without being configured.
pub open spec fn is_dynamic(g: Global, addr: IpAddr) -> bool {
    exists|n: Seq<char>| #[trigger]
        g.peer_group@.contains_key(n) && covered(g.peer_group@[n].dynamic_peers@, addr)
}

fn is_covered(v: &Vec<DynamicPeer>, addr: IpAddr) -> (r: bool)
    ensures
        r == covered(v@, addr),
{
    let mut i: usize = 0;
    while i < v.len()
        invariant
            i <= v@.len(),
            forall|j: int| 0 <= j < i ==> !(#[trigger] v@[j]).prefix.covers(addr),
        decreases v@.len() - i,
    {
        if v[i].prefix.contains(addr) {
            assert(v@[i as int].prefix.covers(addr));
            return true;
        }
        i += 1;
    }
    false
}

/// Whether peers at `addr` are accepted without being configured.
pub fn is_dynamic_peer(g: &Global, addr: IpAddr) -> (r: bool)
    requires
        g.wf(),
    ensures
        r == is_dynamic(*g, addr),
{
    let ghost all = g.peer_group.entries@;
    let mut i: usize = 0;
    while i < g.peer_group.entries.len()
        invariant
            i <= all.len(),
            all == g.peer_group.entries@,
            vecmap::distinct_keys(all),
            forall|j: int| 0 <= j < i ==> !covered((#[trigger] all[j]).1.dynamic_peers@, addr),
        decreases all.len() - i,
    {
        if is_covered(&g.peer_group.entries[i].1.dynamic_peers, addr) {
            proof {
                vecmap::lemma_entry(all, i as int);
                assert(g.peer_group@.contains_key(all[i as int].0@));
            }
            return true;
        }
        i += 1;
    }
    proof {
        assert forall|n: Seq<char>| #[trigger] g.peer_group@.contains_key(n) implies !covered(
            g.peer_group@[n].dynamic_peers@,
            addr,
        ) by {
            vecmap::lemma_key(all, n);
        }
    }
    false
}

/// The name of the group of all peers that are accepted.
pub const ANY_GROUP: &'static str = "any";

/// Has all IPv4 peers accepted.
pub fn accept_any(g: &mut Global)
    requires
        old(g).wf(),
    ensures
        final(g).wf(),
        *final(g) == (Global { peer_group: final(g).peer_group, ..*old(g) }),
        final(g).peer_group@.contains_key(ANY_GROUP@),
        final(g).peer_group@ == old(g).peer_group@.insert(
            ANY_GROUP@,
            final(g).peer_group@[ANY_GROUP@],
        ),
        final(g).peer_group@[ANY_GROUP@].as_number == 0,
        final(g).peer_group@[ANY_GROUP@].dynamic_peers@ == seq![
            DynamicPeer { prefix: IpNet { addr: IpAddr::V4(0), mask: 0 } },
        ],
{
    let mut dynamic_peers: Vec<DynamicPeer> = Vec::new();
    dynamic_peers.push(DynamicPeer { prefix: IpNet { addr: IpAddr::V4(0), mask: 0 } });
    assert(dynamic_peers@ =~= seq![
        DynamicPeer { prefix: IpNet { addr: IpAddr::V4(0), mask: 0 } },
    ]);
    g.peer_group.insert(ANY_GROUP.to_owned(), PeerGroup { as_number: 0, dynamic_peers });
}

/// Once all peers are accepted, no connection of an IPv4 peer is turned down.
pub proof fn law_any_peer_is_accepted(g: Global, addr: IpAddr)
    requires
        g.peer_group@.contains_key(ANY_GROUP@),
        g.peer_group@[ANY_GROUP@].dynamic_peers@ == seq![
            DynamicPeer { prefix: IpNet { addr: IpAddr::V4(0), mask: 0 } },
        ],
        addr is V4,
    ensures
        is_dynamic(g, addr),
{
    let s = g.peer_group@[ANY_GROUP@].dynamic_peers@;
    addr::law_prefix_covers(s[0].prefix, addr);
    assert(s[0].prefix.covers(addr));
}

/// Whether `p` is the peer at `addr` as it is accepted without being configured.
pub open spec fn is_accepted(p: Peer, addr: IpAddr, as_number: u32) -> bool {
    &&& p.wf()
    &&& p.address == addr
    &&& p.local_port == 0
    &&& p.remote_port == 0
    &&& p.remote_as == 0
    &&& p.router_id == 0
    &&& p.local_as == as_number
    &&& p.peer_type == 0
    &&& !p.passive
    &&& p.delete_on_disconnected
    &&& p.hold_time == peer::DEFAULT_HOLD_TIME
    &&& p.connect_retry_time == peer::DEFAULT_CONNECT_RETRY_TIME
    &&& p.state == State::Active
    &&& p.uptime == Timestamp::spec_epoch()
    &&& p.downtime == Timestamp::spec_epoch()
    &&& p.counter_tx == MessageCounter::zero()
    &&& p.counter_rx == MessageCounter::zero()
    &&& p.accepted@ == Map::<Family, u64>::empty()
    &&& p.remote_cap@.len() == 0
    &&& bgp::cap_views(p.local_cap@) == Peer::basic_capabilities(as_number)
        + peer::multi_protocol(seq![bgp::unicast_family(addr)])
}

/// The source of the routes of a peer whose session has yet to be opened.
pub open spec fn new_source(addr: IpAddr, local_addr: IpAddr) -> Source {
    Source { local_addr, local_as: 0, address: addr, ibgp: false, state: State::Active }
}

/// Takes a connection with the peer at `addr`, if it is configured or accepted without that.
/// Gives back whether it has been taken.
pub fn on_peer_connected(t: &mut Table, g: &mut Global, addr: IpAddr, local_addr: IpAddr) -> (r:
    bool)
    requires
        old(t).wf(),
        old(g).wf(),
    ensures
        final(t).wf(),
        final(g).wf(),
        r == (old(g).peers@.contains_key(addr) || is_dynamic(*old(g), addr)),
        if r {
            let s = final(t).bgp_sessions@[addr];
            &&& *final(t) == (Table { bgp_sessions: final(t).bgp_sessions, ..*old(t) })
            &&& final(t).bgp_sessions@.contains_key(addr)
            &&& final(t).bgp_sessions@ == old(t).bgp_sessions@.insert(addr, s)
            &&& *s.source == new_source(addr, local_addr)
            &&& s.accepted@ == Map::<Family, u64>::empty()
            &&& s.families@.len() == 0
        } else {
            *final(t) == *old(t)
        },
        if r && !old(g).peers@.contains_key(addr) {
            let p = final(g).peers@[addr];
            &&& *final(g) == (Global { peers: final(g).peers, ..*old(g) })
            &&& final(g).peers@.contains_key(addr)
            &&& final(g).peers@ == old(g).peers@.insert(addr, p)
            &&& is_accepted(p, addr, old(g).as_number)
        } else {
            *final(g) == *old(g)
        },
{
    if !g.peers.contains_key(&addr) {
        if !is_dynamic_peer(g, addr) {
            return false;
        }
        let mut families: Vec<Family> = Vec::new();
        families.push(bgp::family_of_addr(&addr));
        assert(families@ =~= seq![bgp::unicast_family(addr)]);
        let peer = Peer::new(addr, g.as_number).families(families).state(
            State::Active,
        ).delete_on_disconnected(true);
        g.peers.insert(addr, peer);
    }
    let source = Arc::new(
        Source { local_addr, local_as: 0, address: addr, ibgp: false, state: State::Active },
    );
    t.bgp_sessions.insert(addr, BgpSession::new(source));
    true
}

/// What a monitoring station is told about the session of the entry, if it is up.
pub open spec fn up_message(g: Global) -> spec_fn((IpAddr, BgpSession)) -> Option<
    bmp::MessageView,
> {
    |e: (IpAddr, BgpSession)|
        if e.1.source.state == State::Established {
            Some(
                bmp::MessageView::PeerUpNotification(
                    g.peers@[e.1.source.address].bmp_up(g.id, e.1.source.address),
                ),
            )
        } else {
            None
        }
}

/// What a monitoring station is told about a route to `n`: nothing where it is one of the speaker
/// itself.
pub open spec fn route_message(g: Global, local: IpAddr, n: Nlri) -> spec_fn(Path) -> Option<
    bmp::MessageView,
> {
    |p: Path|
        if p.source.address == local {
            None
        } else {
            Some(
                bmp::MessageView::RouteMonitoring(
                    bmp::RouteMonitoringView {
                        peer_header: g.peers@[p.source.address].bmp_header(),
                        payload: update::path_pdu(p, n),
                    },
                ),
            )
        }
}

/// What a monitoring station is told about the destinations `l`.
pub open spec fn rib_messages(g: Global, local: IpAddr, l: Seq<(Nlri, Seq<Path>)>) -> Seq<
    bmp::MessageView,
>
    decreases l.len(),
{
    if l.len() == 0 {
        Seq::empty()
    } else {
        rib_messages(g, local, l.drop_last()) + l.last().1.filter_map(
            route_message(g, local, l.last().0),
        )
    }
}

/// What a monitoring station is told about the tables `s`.
pub open spec fn table_messages(g: Global, local: IpAddr, s: Seq<(Family, Rib)>) -> Seq<
    bmp::MessageView,
>
    decreases s.len(),
{
    if s.len() == 0 {
        Seq::empty()
    } else {
        table_messages(g, local, s.drop_last()) + rib_messages(
            g,
            local,
            rib::rib_list(s.last().1.entries@),
        )
    }
}

/// What a monitoring station is told first: who the speaker is, which sessions are up, and the
/// routes of the peers.
pub open spec fn first_messages(t: Table, g: Global) -> Seq<bmp::MessageView> {
    seq![bmp::MessageView::Initiation] + t.bgp_sessions.entries@.filter_map(up_message(g))
        + table_messages(g, t.local_source.address, t.master.entries@)
}

/// Whether all peers with a session that is up are known.
pub open spec fn knows_sessions(g: Global, s: Seq<(IpAddr, BgpSession)>) -> bool {
    forall|i: int|
        0 <= i < s.len() && (#[trigger] s[i]).1.source.state == State::Established
            ==> g.peers@.contains_key(s[i].1.source.address)
}

/// Whether all peers among the sources of the routes `s` are known.
pub open spec fn knows_paths(g: Global, local: IpAddr, s: Seq<Path>) -> bool {
    forall|i: int|
        0 <= i < s.len() && (#[trigger] s[i]).source.address != local ==> g.peers@.contains_key(
            s[i].source.address,
        )
}

/// Whether all peers among the sources of the routes in `s` are known.
pub open spec fn knows_rib(g: Global, local: IpAddr, s: Seq<(Nlri, Destination)>) -> bool {
    forall|i: int|
        0 <= i < s.len() ==> knows_paths(g, local, (#[trigger] s[i]).1.entry@)
}

/// Whether all peers with a session that is up, or with a route, are known.
pub open spec fn knows_all(g: Global, t: Table) -> bool {
    &&& knows_sessions(g, t.bgp_sessions.entries@)
    &&& forall|i: int|
        0 <= i < t.master.entries@.len() ==> knows_rib(
            g,
            t.local_source.address,
            (#[trigger] t.master.entries@[i]).1.entries@,
        )
}

fn up_messages(t: &Table, g: &Global, out: &mut Vec<bmp::Message>)
    requires
        g.wf(),
        knows_sessions(*g, t.bgp_sessions.entries@),
    ensures
        bmp::message_views(final(out)@) == bmp::message_views(old(out)@)
            + t.bgp_sessions.entries@.filter_map(up_message(*g)),
{
    let ghost all = t.bgp_sessions.entries@;
    let ghost f = up_message(*g);
    let ghost before = bmp::message_views(out@);
    let mut i: usize = 0;
    proof {
        lists::lemma_filter_map_empty(all.take(0), f);
        assert(before + all.take(0).filter_map(f) =~= before);
    }
    while i < t.bgp_sessions.entries.len()
        invariant
            g.wf(),
            i <= all.len(),
            all == t.bgp_sessions.entries@,
            f == up_message(*g),
            knows_sessions(*g, all),
            bmp::message_views(out@) == before + all.take(i as int).filter_map(f),
        decreases all.len() - i,
    {
        let s = &t.bgp_sessions.entries[i].1;
        let ghost done = out@;
        proof {
            lists::lemma_filter_map_take(all, f, i as int);
            assert(all[i as int].1 == *s);
        }
        if s.source.state == State::Established {
            let p = g.peers.get(&s.source.address).unwrap();
            let m = bmp::Message::PeerUpNotification(p.to_bmp_up(g.id, s.source.address));
            out.push(m);
            proof {
                assert(bmp::message_views(out@) =~= bmp::message_views(done).push(m@));
                assert(before + all.take(i as int).filter_map(f).push(m@) =~= (before + all.take(
                    i as int,
                ).filter_map(f)).push(m@));
            }
        }
        i += 1;
    }
    assert(all.take(i as int) =~= all);
}

fn path_messages(g: &Global, local: IpAddr, n: Nlri, s: &Vec<Path>, out: &mut Vec<bmp::Message>)
    requires
        g.wf(),
        knows_paths(*g, local, s@),
    ensures
        bmp::message_views(final(out)@) == bmp::message_views(old(out)@) + s@.filter_map(
            route_message(*g, local, n),
        ),
{
    let ghost f = route_message(*g, local, n);
    let ghost before = bmp::message_views(out@);
    let mut i: usize = 0;
    proof {
        lists::lemma_filter_map_empty(s@.take(0), f);
        assert(before + s@.take(0).filter_map(f) =~= before);
    }
    while i < s.len()
        invariant
            g.wf(),
            i <= s@.len(),
            f == route_message(*g, local, n),
            knows_paths(*g, local, s@),
            bmp::message_views(out@) == before + s@.take(i as int).filter_map(f),
        decreases s@.len() - i,
    {
        let path = &s[i];
        let ghost done = out@;
        proof {
            lists::lemma_filter_map_take(s@, f, i as int);
        }
        if path.source.address != local {
            let p = g.peers.get(&path.source.address).unwrap();
            let m = bmp::Message::RouteMonitoring(
                bmp::RouteMonitoring { peer_header: p.to_bmp_ph(), payload: path.to_payload(n) },
            );
            out.push(m);
            proof {
                assert(bmp::message_views(out@) =~= bmp::message_views(done).push(m@));
                assert(before + s@.take(i as int).filter_map(f).push(m@) =~= (before + s@.take(
                    i as int,
                ).filter_map(f)).push(m@));
            }
        }
        i += 1;
    }
    assert(s@.take(i as int) =~= s@);
}

fn destination_messages(g: &Global, local: IpAddr, m: &Rib, out: &mut Vec<bmp::Message>)
    requires
        g.wf(),
        knows_rib(*g, local, m.entries@),
    ensures
        bmp::message_views(final(out)@) == bmp::message_views(old(out)@) + rib_messages(
            *g,
            local,
            rib::rib_list(m.entries@),
        ),
{
    let ghost all = rib::rib_list(m.entries@);
    let ghost before = bmp::message_views(out@);
    let mut i: usize = 0;
    assert(before + rib_messages(*g, local, all.take(0)) =~= before);
    while i < m.entries.len()
        invariant
            g.wf(),
            i <= m.entries@.len(),
            all == rib::rib_list(m.entries@),
            knows_rib(*g, local, m.entries@),
            bmp::message_views(out@) == before + rib_messages(*g, local, all.take(i as int)),
        decreases m.entries@.len() - i,
    {
        let e = &m.entries[i];
        path_messages(g, local, e.0, &e.1.entry, out);
        proof {
            assert(all.take(i + 1).drop_last() =~= all.take(i as int));
            assert(all.take(i + 1).last() == (e.0, e.1.entry@));
            assert(before + rib_messages(*g, local, all.take(i + 1)) =~= (before + rib_messages(
                *g,
                local,
                all.take(i as int),
            )) + e.1.entry@.filter_map(route_message(*g, local, e.0)));
        }
        i += 1;
    }
    assert(all.take(i as int) =~= all);
}

/// Takes a connection to a monitoring station, unless there is one already. Gives back what the
/// station is told first.
pub fn on_station_connected(t: &mut Table, g: &Global, sockaddr: SocketAddr) -> (r: Option<
    Vec<bmp::Message>,
>)
    requires
        old(t).wf(),
        g.wf(),
        !old(t).bmp_sessions@.contains_key(sockaddr) ==> knows_all(*g, *old(t)),
    ensures
        final(t).wf(),
        if old(t).bmp_sessions@.contains_key(sockaddr) {
            r is None && *final(t) == *old(t)
        } else {
            &&& r is Some
            &&& bmp::message_views(r->0@) == first_messages(*old(t), *g)
            &&& *final(t) == (Table { bmp_sessions: final(t).bmp_sessions, ..*old(t) })
            &&& final(t).bmp_sessions@ == old(t).bmp_sessions@.insert(sockaddr, ())
        },
{
    if t.bmp_sessions.contains_key(&sockaddr) {
        return None;
    }
    let local: IpAddr = t.local_source.address;
    let mut out: Vec<bmp::Message> = Vec::new();
    out.push(bmp::Message::Initiation);
    assert(bmp::message_views(out@) =~= seq![bmp::MessageView::Initiation]);
    up_messages(t, g, &mut out);
    let ghost before = bmp::message_views(out@);
    let ghost all = t.master.entries@;
    let mut i: usize = 0;
    assert(before + table_messages(*g, local, all.take(0)) =~= before);
    while i < t.master.entries.len()
        invariant
            g.wf(),
            i <= all.len(),
            all == t.master.entries@,
            *t == *old(t),
            local == t.local_source.address,
            knows_all(*g, *t),
            bmp::message_views(out@) == before + table_messages(*g, local, all.take(i as int)),
        decreases all.len() - i,
    {
        destination_messages(g, local, &t.master.entries[i].1, &mut out);
        proof {
            assert(all.take(i + 1).drop_last() =~= all.take(i as int));
            assert(before + table_messages(*g, local, all.take(i + 1)) =~= (before + table_messages(
                *g,
                local,
                all.take(i as int),
            )) + rib_messages(*g, local, rib::rib_list(all[i as int].1.entries@)));
        }
        i += 1;
    }
    assert(all.take(i as int) =~= all);
    t.bmp_sessions.insert(sockaddr, ());
    Some(out)
}

/// Whether all peers with a session that is up, or with a route, are known.
pub fn knows_everyone(t: &Table, g: &Global) -> (r: bool)
    requires
        g.wf(),
    ensures
        r == knows_all(*g, *t),
{
    let local: IpAddr = t.local_source.address;
    let mut i: usize = 0;
    while i < t.bgp_sessions.entries.len()
        invariant
            g.wf(),
            i <= t.bgp_sessions.entries@.len(),
            forall|j: int|
                0 <= j < i && (#[trigger] t.bgp_sessions.entries@[j]).1.source.state
                    == State::Established ==> g.peers@.contains_key(
                    t.bgp_sessions.entries@[j].1.source.address,
                ),
        decreases t.bgp_sessions.entries@.len() - i,
    {
        let s = &t.bgp_sessions.entries[i].1;
        if s.source.state == State::Established && !g.peers.contains_key(&s.source.address) {
            assert(t.bgp_sessions.entries@[i as int].1.source.state == State::Established);
            return false;
        }
        i += 1;
    }
    i = 0;
    while i < t.master.entries.len()
        invariant
            g.wf(),
            i <= t.master.entries@.len(),
            local == t.local_source.address,
            forall|j: int|
                0 <= j < i ==> knows_rib(*g, local, (#[trigger] t.master.entries@[j]).1.entries@),
        decreases t.master.entries@.len() - i,
    {
        if !knows_destinations(g, local, &t.master.entries[i].1) {
            assert(!knows_rib(*g, local, t.master.entries@[i as int].1.entries@));
            return false;
        }
        i += 1;
    }
    true
}

fn knows_destinations(g: &Global, local: IpAddr, m: &Rib) -> (r: bool)
    requires
        g.wf(),
    ensures
        r == knows_rib(*g, local, m.entries@),
{
    let mut i: usize = 0;
    while i < m.entries.len()
        invariant
            g.wf(),
            i <= m.entries@.len(),
            forall|j: int| 0 <= j < i ==> knows_paths(*g, local, (#[trigger] m.entries@[j]).1.entry@),
        decreases m.entries@.len() - i,
    {
        let s = &m.entries[i].1.entry;
        let mut j: usize = 0;
        while j < s.len()
            invariant
                g.wf(),
                i < m.entries@.len(),
                *s == m.entries@[i as int].1.entry,
                j <= s@.len(),
                forall|k: int|
                    0 <= k < j && (#[trigger] s@[k]).source.address != local
                        ==> g.peers@.contains_key(s@[k].source.address),
            decreases s@.len() - j,
        {
            if s[j].source.address != local && !g.peers.contains_key(&s[j].source.address) {
                assert(s@[j as int].source.address != local);
                assert(!knows_paths(*g, local, m.entries@[i as int].1.entry@));
                return false;
            }
            j += 1;
        }
        i += 1;
    }
    true
}

/// After the end of a session nobody has a route of the peer, the peer is not told anything more,
/// and the other sessions are as they were.
pub proof fn law_peer_down(before: Table, after: Table, source: Source, f: Family, n: Nlri, a: IpAddr)
    requires
        before.wf(),
        after.bgp_sessions@ == before.bgp_sessions@.remove(source.address),
        after.routes() == table::routes_without_all(before.routes(), source.address),
    ensures
        !rib::has_source(table::routes_at(after.routes(), f, n), source.address),
        !after.bgp_sessions@.contains_key(source.address),
        a != source.address && before.bgp_sessions@.contains_key(a)
            ==> after.bgp_sessions@.contains_key(a) && after.bgp_sessions@[a]
            == before.bgp_sessions@[a],
{
    assert forall|g: Family, k: Nlri| rib::one_per_source(
        #[trigger] table::routes_at(before.routes(), g, k),
    ) by {
        table::lemma_family_routes(before, g);
    }
    table::law_clear(before.routes(), source.address, f, n);
}

/// Updates are passed on one after the other: each adds what it alone has passed on, behind what
/// the ones before it have.
pub proof fn law_deliveries_in_turn(
    t: Table,
    source: Source,
    s: Seq<(Family, TableUpdate)>,
    family: Family,
    u: TableUpdate,
)
    ensures
        all_deliveries(t, source, Seq::<(Family, TableUpdate)>::empty()).len() == 0,
        all_deliveries(t, source, s.push((family, u))) == all_deliveries(t, source, s)
            + t.deliveries(source, family, Some(u)),
{
    assert(s.push((family, u)).drop_last() =~= s);
}

/// A peer is accepted without being configured exactly when a prefix of one of the groups covers
/// its address.
pub proof fn law_accepted_by_prefix(g: Global, addr: IpAddr, name: Seq<char>, i: int)
    ensures
        g.peer_group@.contains_key(name) && 0 <= i < g.peer_group@[name].dynamic_peers@.len()
            && g.peer_group@[name].dynamic_peers@[i].prefix.covers(addr) ==> is_dynamic(g, addr),
        (forall|n: Seq<char>, j: int|
            g.peer_group@.contains_key(n) && 0 <= j < g.peer_group@[n].dynamic_peers@.len()
                ==> !(#[trigger] g.peer_group@[n].dynamic_peers@[j]).prefix.covers(addr))
            ==> !is_dynamic(g, addr),
{
    if g.peer_group@.contains_key(name) && 0 <= i < g.peer_group@[name].dynamic_peers@.len()
        && g.peer_group@[name].dynamic_peers@[i].prefix.covers(addr) {
        assert(covered(g.peer_group@[name].dynamic_peers@, addr));
    }
}

/// A peer that is accepted without being configured has the own AS number of the speaker and any
/// number itself, is forgotten with its session, and carries the routes of the family of its
/// address.
pub proof fn law_accepted_peer(p: Peer, addr: IpAddr, as_number: u32)
    requires
        is_accepted(p, addr, as_number),
    ensures
        p.address == addr,
        p.local_as == as_number,
        p.remote_as == 0,
        p.router_id == 0,
        p.local_port == 0,
        p.remote_port == 0,
        p.hold_time == 180,
        p.connect_retry_time == 3,
        !p.passive,
        p.delete_on_disconnected,
        p.state == State::Active,
        p.uptime.since_epoch() == 0,
        p.downtime.since_epoch() == 0,
        p.counter_tx.total == 0,
        p.counter_rx.total == 0,
        p.accepted@.dom() == Set::<Family>::empty(),
        p.remote_cap@.len() == 0,
        p.local_cap@.len() == 3,
        p.local_cap@[0]@ is RouteRefresh,
        p.local_cap@[1]@ matches bgp::CapabilityView::FourOctetAsNumber { as_number: n } && n
            == as_number,
        p.local_cap@[2]@ matches bgp::CapabilityView::MultiProtocol { family } && family == (match addr {
            IpAddr::V4(_) => Family::Ipv4Uc,
            IpAddr::V6(_) => Family::Ipv6Uc,
        }),
{
    let all = bgp::cap_views(p.local_cap@);
    assert(all.len() == 3);
    assert(all[0] == p.local_cap@[0]@);
    assert(all[1] == p.local_cap@[1]@);
    assert(all[2] == p.local_cap@[2]@);
}

/// Until a session is up, its routes have the address of the peer as their source, and an AS
/// number that is not known.
pub proof fn law_new_source(addr: IpAddr, local: IpAddr)
    ensures
        new_source(addr, local).address == addr,
        new_source(addr, local).local_addr == local,
        new_source(addr, local).local_as == 0,
        !new_source(addr, local).ibgp,
        new_source(addr, local).state == State::Active,
{
}

/// Whether `m` tells of the route `k` to the destination `j` of the family `i` of the table.
pub open spec fn tells_route(
    t: Table,
    g: Global,
    i: int,
    j: int,
    k: int,
    m: bmp::MessageView,
) -> bool {
    let e = t.master.entries@[i].1.entries@[j];
    let p = e.1.entry@[k];
    &&& 0 <= i < t.master.entries@.len()
    &&& 0 <= j < t.master.entries@[i].1.entries@.len()
    &&& 0 <= k < e.1.entry@.len()
    &&& p.source.address != t.local_source.address
    &&& m is RouteMonitoring
    &&& m->RouteMonitoring_0.peer_header == g.peers@[p.source.address].bmp_header()
    &&& m->RouteMonitoring_0.payload == update::path_pdu(p, e.0)
}

proof fn lemma_rib_messages(
    g: Global,
    local: IpAddr,
    l: Seq<(Nlri, Seq<Path>)>,
    m: bmp::MessageView,
)
    ensures
        rib_messages(g, local, l).contains(m) <==> exists|j: int, k: int|
            0 <= j < l.len() && 0 <= k < l[j].1.len() && route_message(g, local, l[j].0)(
                #[trigger] l[j].1[k],
            ) == Some(m),
    decreases l.len(),
{
    if l.len() > 0 {
        let s = l.drop_last();
        let n = l.len() - 1;
        let first = rib_messages(g, local, s);
        let last = l[n].1.filter_map(route_message(g, local, l[n].0));
        lemma_rib_messages(g, local, s, m);
        lists::lemma_filter_map_contains(l[n].1, route_message(g, local, l[n].0), m);
        lemma_sum_contains(first, last, m);
        if first.contains(m) {
            let (j, k) = choose|j: int, k: int|
                0 <= j < s.len() && 0 <= k < s[j].1.len() && route_message(g, local, s[j].0)(
                    #[trigger] s[j].1[k],
                ) == Some(m);
            assert(route_message(g, local, l[j].0)(l[j].1[k]) == Some(m));
        }
        if last.contains(m) {
            let k = choose|k: int|
                0 <= k < l[n].1.len() && route_message(g, local, l[n].0)(#[trigger] l[n].1[k])
                    == Some(m);
            assert(route_message(g, local, l[n].0)(l[n].1[k]) == Some(m));
        }
        if exists|j: int, k: int|
            0 <= j < l.len() && 0 <= k < l[j].1.len() && route_message(g, local, l[j].0)(
                #[trigger] l[j].1[k],
            ) == Some(m) {
            let (j, k) = choose|j: int, k: int|
                0 <= j < l.len() && 0 <= k < l[j].1.len() && route_message(g, local, l[j].0)(
                    #[trigger] l[j].1[k],
                ) == Some(m);
            if j < n {
                assert(s[j] == l[j]);
                assert(route_message(g, local, s[j].0)(s[j].1[k]) == Some(m));
            } else {
                assert(route_message(g, local, l[n].0)(l[n].1[k]) == Some(m));
            }
        }
    }
}

proof fn lemma_sum_contains<A>(a: Seq<A>, b: Seq<A>, x: A)
    ensures
        (a + b).contains(x) <==> a.contains(x) || b.contains(x),
{
    if a.contains(x) {
        let i = choose|i: int| 0 <= i < a.len() && a[i] == x;
        assert((a + b)[i] == x);
    }
    if b.contains(x) {
        let i = choose|i: int| 0 <= i < b.len() && b[i] == x;
        assert((a + b)[a.len() + i] == x);
    }
}

proof fn lemma_table_messages(
    g: Global,
    local: IpAddr,
    s: Seq<(Family, Rib)>,
    m: bmp::MessageView,
)
    ensures
        table_messages(g, local, s).contains(m) <==> exists|i: int|
            0 <= i < s.len() && rib_messages(
                g,
                local,
                rib::rib_list((#[trigger] s[i]).1.entries@),
            ).contains(m),
    decreases s.len(),
{
    if s.len() > 0 {
        let t = s.drop_last();
        let n = s.len() - 1;
        lemma_table_messages(g, local, t, m);
        lemma_sum_contains(
            table_messages(g, local, t),
            rib_messages(g, local, rib::rib_list(s[n].1.entries@)),
            m,
        );
        if table_messages(g, local, t).contains(m) {
            let i = choose|i: int|
                0 <= i < t.len() && rib_messages(
                    g,
                    local,
                    rib::rib_list((#[trigger] t[i]).1.entries@),
                ).contains(m);
            assert(s[i] == t[i]);
        }
        if exists|i: int|
            0 <= i < s.len() && rib_messages(
                g,
                local,
                rib::rib_list((#[trigger] s[i]).1.entries@),
            ).contains(m) {
            let i = choose|i: int|
                0 <= i < s.len() && rib_messages(
                    g,
                    local,
                    rib::rib_list((#[trigger] s[i]).1.entries@),
                ).contains(m);
            if i < n {
                assert(t[i] == s[i]);
            }
        }
    }
}

proof fn lemma_told_routes(t: Table, g: Global, m: bmp::MessageView)
    ensures
        table_messages(g, t.local_source.address, t.master.entries@).contains(m) <==> exists|
            i: int,
            j: int,
            k: int,
        |
            #[trigger] tells_route(t, g, i, j, k, m),
{
    let s = t.master.entries@;
    let local = t.local_source.address;
    lemma_table_messages(g, local, s, m);
    if table_messages(g, local, s).contains(m) {
        let i = choose|i: int|
            0 <= i < s.len() && rib_messages(
                g,
                local,
                rib::rib_list((#[trigger] s[i]).1.entries@),
            ).contains(m);
        let l = rib::rib_list(s[i].1.entries@);
        lemma_rib_messages(g, local, l, m);
        let (j, k) = choose|j: int, k: int|
            0 <= j < l.len() && 0 <= k < l[j].1.len() && route_message(g, local, l[j].0)(
                #[trigger] l[j].1[k],
            ) == Some(m);
        assert(l[j] == (s[i].1.entries@[j].0, s[i].1.entries@[j].1.entry@));
        assert(tells_route(t, g, i, j, k, m));
    }
    if exists|i: int, j: int, k: int| #[trigger] tells_route(t, g, i, j, k, m) {
        let (i, j, k) = choose|i: int, j: int, k: int| #[trigger] tells_route(t, g, i, j, k, m);
        let l = rib::rib_list(s[i].1.entries@);
        lemma_rib_messages(g, local, l, m);
        assert(l[j] == (s[i].1.entries@[j].0, s[i].1.entries@[j].1.entry@));
        assert(route_message(g, local, l[j].0)(l[j].1[k]) == Some(m));
        assert(rib_messages(g, local, rib::rib_list(s[i].1.entries@)).contains(m));
    }
}

/// A monitoring station is first told who the speaker is. It is told that a session is up exactly
/// for those that are, and of a route exactly for those that are not of the speaker itself, each
/// under the header of the peer that announced it. Nothing else is told.
pub proof fn law_first_messages(t: Table, g: Global, m: bmp::MessageView)
    ensures
        ({
            let out = first_messages(t, g);
            let s = t.bgp_sessions.entries@;
            &&& out.len() > 0
            &&& out[0] is Initiation
            &&& m is PeerUpNotification ==> (out.contains(m) <==> exists|i: int|
                0 <= i < s.len() && (#[trigger] s[i]).1.source.state == State::Established && m
                    == bmp::MessageView::PeerUpNotification(
                    g.peers@[s[i].1.source.address].bmp_up(g.id, s[i].1.source.address),
                ))
            &&& m is RouteMonitoring ==> (out.contains(m) <==> exists|i: int, j: int, k: int|
                #[trigger] tells_route(t, g, i, j, k, m))
            &&& m is PeerDownNotification ==> !out.contains(m)
        }),
{
    let out = first_messages(t, g);
    let s = t.bgp_sessions.entries@;
    let hello = seq![bmp::MessageView::Initiation];
    let ups = s.filter_map(up_message(g));
    let routes = table_messages(g, t.local_source.address, t.master.entries@);
    lemma_sum_contains(hello + ups, routes, m);
    lemma_sum_contains(hello, ups, m);
    lists::lemma_filter_map_contains(s, up_message(g), m);
    lemma_told_routes(t, g, m);
    assert(out[0] == hello[0]);
    assert(hello.contains(m) ==> m is Initiation);
    if ups.contains(m) {
        let i = choose|i: int| 0 <= i < s.len() && up_message(g)(#[trigger] s[i]) == Some(m);
        assert(s[i].1.source.state == State::Established);
    }
    if exists|i: int|
        0 <= i < s.len() && (#[trigger] s[i]).1.source.state == State::Established && m
            == bmp::MessageView::PeerUpNotification(
            g.peers@[s[i].1.source.address].bmp_up(g.id, s[i].1.source.address),
        ) {
        let i = choose|i: int|
            0 <= i < s.len() && (#[trigger] s[i]).1.source.state == State::Established && m
                == bmp::MessageView::PeerUpNotification(
                g.peers@[s[i].1.source.address].bmp_up(g.id, s[i].1.source.address),
            );
        assert(up_message(g)(s[i]) == Some(m));
    }
}

/// All peers are known when those with a session that is up are, and those that have announced a
/// route and are not the speaker itself.
pub proof fn law_all_are_known(t: Table, g: Global, i: int, j: int, k: int)
    requires
        knows_all(g, t),
    ensures
        0 <= i < t.bgp_sessions.entries@.len() && t.bgp_sessions.entries@[i].1.source.state
            == State::Established ==> g.peers@.contains_key(
            t.bgp_sessions.entries@[i].1.source.address,
        ),
        0 <= i < t.master.entries@.len() && 0 <= j < t.master.entries@[i].1.entries@.len() && 0 <= k
            < t.master.entries@[i].1.entries@[j].1.entry@.len() ==> {
            let a = t.master.entries@[i].1.entries@[j].1.entry@[k].source.address;
            a == t.local_source.address || g.peers@.contains_key(a)
        },
{
}

} // verus!
