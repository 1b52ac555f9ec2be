//! The sessions with peers.
use std::sync::Arc;
use vstd::prelude::*;
use crate::addr::{IpAddr, Ipv4Addr};
use crate::bgp;
use crate::bgp::{
    AttributeView, Capability, CapabilityView, Family, Message, Nlri, NotificationCode, OpenMessage,
    OpenParam, State, UpdateMessage, UpdatePdu,
};
use crate::bmp;
use crate::bmp::OpenPdu;
use crate::event::{DisconnectedProto, SrvEvent, TableChange};
use crate::lists;
use crate::path::{Path, PathAttr, Source, TableUpdate};
use crate::peer::{Global, Peer};
use crate::rib;
use crate::table;
use crate::table::{has_family, BgpSession, Table};
use crate::time::Timestamp;
use crate::update;
use crate::vecmap;
use crate::vecmap::Key;

verus! {

/// What a session keeps to itself.
pub struct Session {
    pub addr: IpAddr,
    pub local_addr: IpAddr,
    pub state: State,
    /// The source of the routes that the peer announces.
    pub source: Arc<Source>,
    /// The seconds between KEEPALIVE messages.
    pub keepalive_interval: u16,
}

/// What a session has to do about a message.
pub enum Step {
    /// Nothing.
    Continue,
    /// Send a KEEPALIVE message, and start the timer anew.
    SendKeepalive,
    /// Send a NOTIFICATION message, and end.
    Refuse(NotificationCode),
    /// Hand on the changes of the routing table.
    Change(Vec<TableChange>),
    /// The session is up: start the timer anew, tell all monitoring stations, if there are any,
    /// and send the updates.
    Established(Option<bmp::Message>, Vec<TableUpdate>),
    /// End.
    Close,
}

/// What a `TableChange` holds.
#[verifier::ext_equal]
pub struct TableChangeView {
    pub family: Family,
    pub net: Nlri,
    pub source: Source,
    pub nexthop: IpAddr,
    pub attrs: Seq<AttributeView>,
}

impl View for TableChange {
    type V = TableChangeView;

    open spec fn view(&self) -> TableChangeView {
        TableChangeView {
            family: self.family,
            net: self.net,
            source: *self.source,
            nexthop: self.nexthop,
            attrs: bgp::attr_views(self.attrs.entry@),
        }
    }
}

/// What the changes in `v` hold.
pub open spec fn change_views(v: Seq<TableChange>) -> Seq<TableChangeView> {
    v.map_values(|c: TableChange| c@)
}

/// The capability that a parameter of an OPEN message carries.
pub open spec fn param_capability() -> spec_fn(OpenParam) -> Option<CapabilityView> {
    |p: OpenParam|
        match p {
            OpenParam::CapabilityParam(c) => Some(c@),
            OpenParam::UnknownParam => None,
        }
}

/// Whether the families `s` are those that both ends can carry routes of.
pub open spec fn is_agreed(
    s: Seq<Family>,
    local: Seq<CapabilityView>,
    remote: Seq<CapabilityView>,
) -> bool {
    &&& s.no_duplicates()
    &&& forall|f: Family| #[trigger]
        s.contains(f) == (local.contains(CapabilityView::MultiProtocol { family: f })
            && remote.contains(CapabilityView::MultiProtocol { family: f }))
}

/// Whether the global state is `before`, but for the peer at `a`.
pub open spec fn only_peer(after: Global, before: Global, a: IpAddr) -> bool {
    &&& after == (Global { peers: after.peers, ..before })
    &&& after.peers@.contains_key(a)
    &&& after.peers@ == before.peers@.insert(a, after.peers@[a])
}

/// Whether the table is `before`, but for the session at `a`.
pub open spec fn only_session(after: Table, before: Table, a: IpAddr) -> bool {
    &&& after == (Table { bgp_sessions: after.bgp_sessions, ..before })
    &&& after.bgp_sessions@.contains_key(a)
    &&& after.bgp_sessions@ == before.bgp_sessions@.insert(a, after.bgp_sessions@[a])
}

impl Session {
    /// Starts the session with the peer at `addr`. Gives back the OPEN message to be sent.
    /// `holdtime` is the hold time that the speaker proposes.
    pub fn start(g: &mut Global, t: &Table, addr: IpAddr, local_addr: IpAddr, holdtime: u16) -> (r: (
        Session,
        OpenPdu,
    ))
        requires
            old(g).wf(),
            t.wf(),
            old(g).peers@.contains_key(addr),
            t.bgp_sessions@.contains_key(addr),
            old(g).peers@[addr].counter_tx.open < u64::MAX,
            old(g).peers@[addr].counter_tx.total < u64::MAX,
        ensures
            final(g).wf(),
            only_peer(*final(g), *old(g), addr),
            final(g).peers@[addr] == (Peer {
                counter_tx: old(g).peers@[addr].counter_tx.opened(),
                ..old(g).peers@[addr]
            }),
            r.0 == (Session {
                addr,
                local_addr,
                state: State::OpenSent,
                source: t.bgp_sessions@[addr].source,
                keepalive_interval: holdtime / 3,
            }),
            r.1@ == old(g).peers@[addr].open_sent(old(g).id),
    {
        let router_id: Ipv4Addr = g.id;
        let source = t.bgp_sessions.get(&addr).unwrap().source.clone();
        let peer = g.peers.get_mut(&addr).unwrap();
        let open = peer.to_open(router_id);
        peer.counter_tx.count_open();
        (
            Session {
                addr,
                local_addr,
                state: State::OpenSent,
                source,
                keepalive_interval: holdtime / 3,
            },
            open,
        )
    }

    /// Sees to the timer. Gives back whether a KEEPALIVE message is to be sent.
    pub fn on_timer(&self, g: &mut Global) -> (r: bool)
        requires
            old(g).wf(),
            old(g).peers@.contains_key(self.addr),
            self.state == State::Established ==> old(g).peers@[self.addr].counter_tx.has_room(
                Message::Keepalive,
            ),
        ensures
            final(g).wf(),
            r == (self.state == State::Established),
            !r ==> *final(g) == *old(g),
            r ==> only_peer(*final(g), *old(g), self.addr) && final(g).peers@[self.addr] == (Peer {
                counter_tx: old(g).peers@[self.addr].counter_tx.counted(Message::Keepalive),
                ..old(g).peers@[self.addr]
            }),
    {
        if self.state == State::Established {
            let peer = g.peers.get_mut(&self.addr).unwrap();
            peer.counter_tx.sync(&Message::Keepalive);
            return true;
        }
        false
    }

    /// The message that tells the peer about an update, and how many messages and prefixes of it
    /// are withdrawals.
    pub fn on_broadcast(&self, u: &TableUpdate) -> (r: (UpdatePdu, (u64, u64)))
        ensures
            r.0@ == update::update_pdu(*self.source, *u),
            r.1 == (if u is Withdrawn {
                (1u64, 1u64)
            } else {
                (0u64, 0u64)
            }),
    {
        let n: (u64, u64) = match u {
            TableUpdate::Withdrawn(_, _) => (1, 1),
            TableUpdate::NewBest(_, _, _, _) => (0, 0),
        };
        (update::to_update_pdu(&self.source, u), n)
    }

    /// Counts `n` UPDATE messages, with so many withdrawals, that have been sent.
    pub fn sent_updates(&self, g: &mut Global, n: u64, withdraw: (u64, u64))
        requires
            old(g).wf(),
            old(g).peers@.contains_key(self.addr),
            old(g).peers@[self.addr].counter_tx.has_room_for(n, withdraw),
        ensures
            final(g).wf(),
            only_peer(*final(g), *old(g), self.addr),
            final(g).peers@[self.addr] == (Peer {
                counter_tx: old(g).peers@[self.addr].counter_tx.updated(n, withdraw),
                ..old(g).peers@[self.addr]
            }),
    {
        let peer = g.peers.get_mut(&self.addr).unwrap();
        peer.counter_tx.count_updates(n, withdraw);
    }

    /// Counts the NOTIFICATION message with which the session is about to end.
    pub fn on_notification(&self, g: &mut Global, code: NotificationCode)
        requires
            old(g).wf(),
            old(g).peers@.contains_key(self.addr),
            old(g).peers@[self.addr].counter_tx.has_room(Message::Notification(code)),
        ensures
            final(g).wf(),
            only_peer(*final(g), *old(g), self.addr),
            final(g).peers@[self.addr] == (Peer {
                counter_tx: old(g).peers@[self.addr].counter_tx.counted(
                    Message::Notification(code),
                ),
                ..old(g).peers@[self.addr]
            }),
    {
        let peer = g.peers.get_mut(&self.addr).unwrap();
        peer.counter_tx.sync(&Message::Notification(code));
    }

    /// Whether the peer `p` is refused when it says that its AS is `as_number`.
    pub open spec fn is_refused(p: Peer, as_number: u32) -> bool {
        p.remote_as != 0 && p.remote_as != as_number
    }

    /// Whether `p` is the peer `before` after the OPEN message `open` was refused.
    pub open spec fn refused(p: Peer, before: Peer, open: OpenMessage) -> bool {
        p == (Peer { router_id: open.id, state: State::Idle, ..before })
    }

    /// Whether `p` is the peer `before` after the OPEN message `open` was accepted and answered.
    pub open spec fn opened(p: Peer, before: Peer, open: OpenMessage) -> bool {
        &&& p == (Peer {
            router_id: open.id,
            remote_as: open.as_number,
            remote_cap: p.remote_cap,
            state: State::OpenConfirm,
            counter_tx: before.counter_tx.counted(Message::Keepalive),
            ..before
        })
        &&& bgp::cap_views(p.remote_cap@) == open.params@.filter_map(param_capability())
    }

    /// Sees to an OPEN message.
    fn on_open(&mut self, g: &mut Global, t: &mut Table, open: OpenMessage) -> (r: Step)
        requires
            old(g).wf(),
            old(t).wf(),
            old(g).peers@.contains_key(old(self).addr),
            old(t).bgp_sessions@.contains_key(old(self).addr),
            !Session::is_refused(old(g).peers@[old(self).addr], open.as_number) ==> old(
                g,
            ).peers@[old(self).addr].counter_tx.has_room(Message::Keepalive),
        ensures
            final(g).wf(),
            final(t).wf(),
            only_peer(*final(g), *old(g), old(self).addr),
            if Session::is_refused(old(g).peers@[old(self).addr], open.as_number) {
                &&& r == Step::Refuse(NotificationCode::OpenMessageBadPeerAs)
                &&& *final(self) == *old(self)
                &&& *final(t) == *old(t)
                &&& Session::refused(
                    final(g).peers@[old(self).addr],
                    old(g).peers@[old(self).addr],
                    open,
                )
            } else {
                let a = old(self).addr;
                let p = final(g).peers@[a];
                let n = final(t).bgp_sessions@[a];
                &&& r == Step::SendKeepalive
                &&& *final(self) == (Session {
                    state: State::OpenConfirm,
                    keepalive_interval: if open.holdtime / 3 < old(self).keepalive_interval {
                        open.holdtime / 3
                    } else {
                        old(self).keepalive_interval
                    },
                    ..*old(self)
                })
                &&& Session::opened(p, old(g).peers@[a], open)
                &&& only_session(*final(t), *old(t), a)
                &&& n == (BgpSession { families: n.families, ..old(t).bgp_sessions@[a] })
                &&& is_agreed(
                    n.families@,
                    bgp::cap_views(p.local_cap@),
                    bgp::cap_views(p.remote_cap@),
                )
            },
    {
        let peer = g.peers.get_mut(&self.addr).unwrap();
        peer.router_id = open.id;
        let remote_as: u32 = open.as_number;
        if peer.remote_as != 0 && peer.remote_as != remote_as {
            peer.state = State::Idle;
            return Step::Refuse(NotificationCode::OpenMessageBadPeerAs);
        }
        peer.remote_as = remote_as;
        peer.remote_cap = capabilities_of(&open.params);
        let families = agreed_families(&peer.local_cap, &peer.remote_cap);
        peer.state = State::OpenConfirm;
        peer.counter_tx.sync(&Message::Keepalive);
        let session = t.bgp_sessions.get_mut(&self.addr).unwrap();
        session.families = families;
        let interval: u16 = open.holdtime / 3;
        if interval < self.keepalive_interval {
            self.keepalive_interval = interval;
        }
        self.state = State::OpenConfirm;
        Step::SendKeepalive
    }

    /// The source of the routes that the peer `p` announces once the session is up.
    pub open spec fn source_of(self, p: Peer) -> Source {
        Source {
            local_addr: self.local_addr,
            local_as: p.local_as,
            address: self.addr,
            ibgp: p.local_as == p.remote_as,
            state: State::Established,
        }
    }

    /// Sees to a KEEPALIVE message that comes at the time `now`.
    fn on_keepalive(&mut self, g: &mut Global, t: &mut Table, now: Timestamp) -> (r: Step)
        requires
            old(g).wf(),
            old(t).wf(),
            old(g).peers@.contains_key(old(self).addr),
            old(t).bgp_sessions@.contains_key(old(self).addr),
        ensures
            final(g).wf(),
            final(t).wf(),
            if old(self).state == State::Established {
                &&& r == Step::Continue
                &&& *final(self) == *old(self)
                &&& *final(g) == *old(g)
                &&& *final(t) == *old(t)
            } else {
                let a = old(self).addr;
                let p = final(g).peers@[a];
                let n = final(t).bgp_sessions@[a];
                &&& *final(self) == (Session {
                    state: State::Established,
                    source: final(self).source,
                    ..*old(self)
                })
                &&& *final(self).source == old(self).source_of(old(g).peers@[a])
                &&& only_peer(*final(g), *old(g), a)
                &&& p == (Peer { state: State::Established, uptime: now, ..old(g).peers@[a] })
                &&& only_session(*final(t), *old(t), a)
                &&& n == (BgpSession { source: final(self).source, ..old(t).bgp_sessions@[a] })
                &&& r is Established
                &&& r->Established_1@ == first_updates(
                    *old(t),
                    n.families@,
                    final(self).source,
                )
                &&& (match r->Established_0 {
                    Some(m) => old(t).bmp_sessions.entries@.len() > 0 && m@
                        == bmp::MessageView::PeerUpNotification(p.bmp_up(old(g).id, a)),
                    None => old(t).bmp_sessions.entries@.len() == 0,
                })
            },
    {
        if self.state == State::Established {
            return Step::Continue;
        }
        self.state = State::Established;
        let router_id: Ipv4Addr = g.id;
        let peer = g.peers.get_mut(&self.addr).unwrap();
        peer.state = State::Established;
        peer.uptime = now;
        let source = Arc::new(
            Source {
                local_addr: self.local_addr,
                local_as: peer.local_as,
                address: self.addr,
                ibgp: peer.local_as == peer.remote_as,
                state: State::Established,
            },
        );
        self.source = source.clone();
        let message = if t.bmp_sessions.entries.len() > 0 {
            Some(bmp::Message::PeerUpNotification(peer.to_bmp_up(router_id, source.address)))
        } else {
            None
        };
        let session = t.bgp_sessions.get_mut(&self.addr).unwrap();
        session.source = source.clone();
        let families = bgp::copied(&session.families);
        let updates = if t.disable_best_path_selection {
            Vec::new()
        } else {
            best_routes(t, &families, &source)
        };
        proof {
            lemma_family_updates(*t, *old(t), families@, source);
        }
        Step::Established(message, updates)
    }

    /// Whether there is room in the counters for a message and the answer to it.
    pub open spec fn can_count(p: Peer, msg: Message) -> bool {
        &&& p.counter_rx.has_room(msg)
        &&& (match msg {
            Message::Open(open) => !Session::is_refused(p, open.as_number)
                ==> p.counter_tx.has_room(Message::Keepalive),
            _ => true,
        })
    }

    /// Whether there is room in the counters of the peer for a message and the answer to it.
    pub fn can_take(g: &Global, addr: &IpAddr, msg: &Message) -> (r: bool)
        requires
            g.wf(),
            g.peers@.contains_key(*addr),
        ensures
            r == Session::can_count(g.peers@[*addr], *msg),
    {
        match g.peers.get(addr) {
            None => false,
            Some(p) => p.counter_rx.can_sync(msg) && (match msg {
                Message::Open(open) => (p.remote_as != 0 && p.remote_as != open.as_number)
                    || p.counter_tx.can_sync(&Message::Keepalive),
                _ => true,
            }),
        }
    }

    /// Sees to a message of the peer that comes at the time `now`.
    pub fn on_message_at(
        &mut self,
        g: &mut Global,
        t: &mut Table,
        msg: Message,
        now: Timestamp,
    ) -> (r: Step)
        requires
            old(g).wf(),
            old(t).wf(),
            old(g).peers@.contains_key(old(self).addr),
            old(t).bgp_sessions@.contains_key(old(self).addr),
            Session::can_count(old(g).peers@[old(self).addr], msg),
        ensures
            final(g).wf(),
            final(t).wf(),
            only_peer(*final(g), *old(g), old(self).addr),
            stepped(
                (*old(self), *old(g), *old(t)),
                (*final(self), *final(g), *final(t)),
                msg,
                now,
                r,
            ),
    {
        let ghost a = self.addr;
        let ghost g0 = *g;
        let peer = g.peers.get_mut(&self.addr).unwrap();
        peer.counter_rx.sync(&msg);
        let ghost g1 = *g;
        assert(only_peer(g1, g0, a));
        let step = match msg {
            Message::Open(open) => self.on_open(g, t, open),
            Message::Update(update) => Step::Change(changes_of(update, &self.source)),
            Message::Notification(_) => Step::Close,
            Message::Keepalive => self.on_keepalive(g, t, now),
            Message::RouteRefresh(_) => Step::Continue,
            Message::Unknown { .. } => Step::Continue,
        };
        assert(g.peers@ =~= g0.peers@.insert(a, g.peers@[a]));
        step
    }

    /// Sees to a message of the peer.
    pub fn on_message(&mut self, g: &mut Global, t: &mut Table, msg: Message) -> (r: Step)
        requires
            old(g).wf(),
            old(t).wf(),
            old(g).peers@.contains_key(old(self).addr),
            old(t).bgp_sessions@.contains_key(old(self).addr),
            Session::can_count(old(g).peers@[old(self).addr], msg),
        ensures
            final(g).wf(),
            final(t).wf(),
            only_peer(*final(g), *old(g), old(self).addr),
            exists|now: Timestamp| #[trigger]
                stepped(
                    (*old(self), *old(g), *old(t)),
                    (*final(self), *final(g), *final(t)),
                    msg,
                    now,
                    r,
                ),
    {
        self.on_message_at(g, t, msg, Timestamp::now())
    }

    /// What the server is told when the session has ended.
    pub fn end(self) -> (r: SrvEvent)
        ensures
            r == SrvEvent::Disconnected(DisconnectedProto::Bgp(self.source)),
    {
        SrvEvent::Disconnected(DisconnectedProto::Bgp(self.source))
    }
}

/// What a message does to the session, the global state and the table, and what there is to do
/// about it.
pub open spec fn stepped(
    before: (Session, Global, Table),
    after: (Session, Global, Table),
    msg: Message,
    now: Timestamp,
    step: Step,
) -> bool {
    let a = before.0.addr;
    let p = Peer {
        counter_rx: before.1.peers@[a].counter_rx.counted(msg),
        ..before.1.peers@[a]
    };
    let q = after.1.peers@[a];
    match msg {
        Message::Open(open) => if Session::is_refused(p, open.as_number) {
            &&& step == Step::Refuse(NotificationCode::OpenMessageBadPeerAs)
            &&& after.0 == before.0
            &&& after.2 == before.2
            &&& Session::refused(q, p, open)
        } else {
            let n = after.2.bgp_sessions@[a];
            &&& step == Step::SendKeepalive
            &&& after.0 == (Session {
                state: State::OpenConfirm,
                keepalive_interval: if open.holdtime / 3 < before.0.keepalive_interval {
                    open.holdtime / 3
                } else {
                    before.0.keepalive_interval
                },
                ..before.0
            })
            &&& Session::opened(q, p, open)
            &&& only_session(after.2, before.2, a)
            &&& n == (BgpSession { families: n.families, ..before.2.bgp_sessions@[a] })
            &&& is_agreed(
                n.families@,
                bgp::cap_views(q.local_cap@),
                bgp::cap_views(q.remote_cap@),
            )
        },
        Message::Update(u) => {
            &&& step is Change
            &&& change_views(step->Change_0@) == asked_changes(u, *before.0.source)
            &&& after.0 == before.0
            &&& after.2 == before.2
            &&& q == p
        },
        Message::Notification(_) => {
            &&& step == Step::Close
            &&& after.0 == before.0
            &&& after.2 == before.2
            &&& q == p
        },
        Message::Keepalive => if before.0.state == State::Established {
            &&& step == Step::Continue
            &&& after.0 == before.0
            &&& after.2 == before.2
            &&& q == p
        } else {
            let n = after.2.bgp_sessions@[a];
            &&& after.0 == (Session {
                state: State::Established,
                source: after.0.source,
                ..before.0
            })
            &&& *after.0.source == before.0.source_of(p)
            &&& q == (Peer { state: State::Established, uptime: now, ..p })
            &&& only_session(after.2, before.2, a)
            &&& n == (BgpSession { source: after.0.source, ..before.2.bgp_sessions@[a] })
            &&& step is Established
            &&& step->Established_1@ == first_updates(before.2, n.families@, after.0.source)
            &&& (match step->Established_0 {
                Some(m) => before.2.bmp_sessions.entries@.len() > 0 && m@
                    == bmp::MessageView::PeerUpNotification(q.bmp_up(before.1.id, a)),
                None => before.2.bmp_sessions.entries@.len() == 0,
            })
        },
        _ => {
            &&& step == Step::Continue
            &&& after.0 == before.0
            &&& after.2 == before.2
            &&& q == p
        },
    }
}

/// The update that tells a new peer about the best route to the destination of an entry.
pub open spec fn first_update(source: Arc<Source>) -> spec_fn((Nlri, Seq<Path>)) -> TableUpdate {
    |e: (Nlri, Seq<Path>)| TableUpdate::NewBest(e.0, e.1[0].nexthop, e.1[0].attrs, source)
}

/// The updates that tell a new peer about the best routes of the families.
pub open spec fn family_updates(t: Table, families: Seq<Family>, source: Arc<Source>) -> Seq<
    TableUpdate,
>
    decreases families.len(),
{
    if families.len() == 0 {
        Seq::empty()
    } else {
        family_updates(t, families.drop_last(), source) + rib::rib_list(
            t.walked(families.last()).entries@,
        ).map_values(first_update(source))
    }
}

proof fn lemma_family_updates(t: Table, u: Table, families: Seq<Family>, source: Arc<Source>)
    requires
        t.master == u.master,
    ensures
        family_updates(t, families, source) == family_updates(u, families, source),
    decreases families.len(),
{
    if families.len() > 0 {
        lemma_family_updates(t, u, families.drop_last(), source);
    }
}

/// The updates that a new peer is told first: the best routes of the families, where best routes
/// are looked for.
pub open spec fn first_updates(t: Table, families: Seq<Family>, source: Arc<Source>) -> Seq<
    TableUpdate,
> {
    if t.disable_best_path_selection {
        Seq::empty()
    } else {
        family_updates(t, families, source)
    }
}

fn best_routes(t: &Table, families: &Vec<Family>, source: &Arc<Source>) -> (r: Vec<TableUpdate>)
    requires
        t.wf(),
    ensures
        r@ == family_updates(*t, families@, *source),
{
    let mut r: Vec<TableUpdate> = Vec::new();
    let mut i: usize = 0;
    assert(families@.take(0).len() == 0);
    while i < families.len()
        invariant
            t.wf(),
            i <= families@.len(),
            r@ == family_updates(*t, families@.take(i as int), *source),
        decreases families@.len() - i,
    {
        let m = t.master_iter(&families[i]);
        let ghost before = r@;
        let ghost l = rib::rib_list(m.entries@).map_values(first_update(*source));
        let mut j: usize = 0;
        assert(before + l.take(0) =~= before);
        while j < m.entries.len()
            invariant
                j <= m.entries@.len(),
                m.wf(),
                rib::rib_ok(rib::rib_map(m.entries@)),
                l == rib::rib_list(m.entries@).map_values(first_update(*source)),
                r@ == before + l.take(j as int),
            decreases m.entries@.len() - j,
        {
            let e = &m.entries[j];
            proof {
                vecmap::lemma_entry(m.entries@, j as int);
                assert(rib::rib_map(m.entries@).contains_key(e.0));
            }
            r.push(
                TableUpdate::NewBest(
                    e.0,
                    e.1.entry[0].nexthop,
                    e.1.entry[0].attrs.clone(),
                    source.clone(),
                ),
            );
            proof {
                assert(l[j as int] == r@.last());
                assert(before + l.take(j + 1) =~= (before + l.take(j as int)).push(l[j as int]));
            }
            j += 1;
        }
        proof {
            assert(l.take(j as int) =~= l);
            assert(families@.take(i + 1).drop_last() =~= families@.take(i as int));
        }
        i += 1;
    }
    assert(families@.take(i as int) =~= families@);
    r
}

fn capabilities_of(params: &Vec<OpenParam>) -> (r: Vec<Capability>)
    ensures
        bgp::cap_views(r@) == params@.filter_map(param_capability()),
{
    let mut r: Vec<Capability> = Vec::new();
    let mut i: usize = 0;
    proof {
        lists::lemma_filter_map_empty(params@.take(0), param_capability());
        assert(bgp::cap_views(r@) =~= params@.take(0).filter_map(param_capability()));
    }
    while i < params.len()
        invariant
            i <= params@.len(),
            bgp::cap_views(r@) == params@.take(i as int).filter_map(param_capability()),
        decreases params@.len() - i,
    {
        let ghost before = r@;
        proof {
            lists::lemma_filter_map_take(params@, param_capability(), i as int);
        }
        match &params[i] {
            OpenParam::CapabilityParam(c) => {
                r.push(c.clone());
                assert(bgp::cap_views(r@) =~= bgp::cap_views(before).push(c@));
            },
            OpenParam::UnknownParam => {},
        }
        i += 1;
    }
    assert(params@.take(i as int) =~= params@);
    r
}

fn can_carry(caps: &Vec<Capability>, family: Family) -> (r: bool)
    ensures
        r == bgp::cap_views(caps@).contains(CapabilityView::MultiProtocol { family }),
{
    let ghost views = bgp::cap_views(caps@);
    let mut i: usize = 0;
    while i < caps.len()
        invariant
            i <= caps@.len(),
            views == bgp::cap_views(caps@),
            forall|j: int|
                0 <= j < i ==> #[trigger] views[j] != (CapabilityView::MultiProtocol { family }),
        decreases caps@.len() - i,
    {
        assert(views[i as int] == caps@[i as int]@);
        match &caps[i] {
            Capability::MultiProtocol { family: f } => {
                if *f == family {
                    return true;
                }
            },
            _ => {},
        }
        i += 1;
    }
    false
}

fn agreed_families(local: &Vec<Capability>, remote: &Vec<Capability>) -> (r: Vec<Family>)
    ensures
        is_agreed(r@, bgp::cap_views(local@), bgp::cap_views(remote@)),
{
    let ghost views = bgp::cap_views(local@);
    let ghost others = bgp::cap_views(remote@);
    let mut r: Vec<Family> = Vec::new();
    let mut i: usize = 0;
    while i < local.len()
        invariant
            i <= local@.len(),
            views == bgp::cap_views(local@),
            others == bgp::cap_views(remote@),
            is_agreed(r@, views.take(i as int), others),
        decreases local@.len() - i,
    {
        let ghost seen = views.take(i as int);
        let ghost more = views.take(i + 1);
        let ghost before = r@;
        let ghost x = views[i as int];
        proof {
            assert(more =~= seen.push(x));
            assert forall|c: CapabilityView| #[trigger]
                more.contains(c) == (seen.contains(c) || c == x) by {
                if seen.contains(c) {
                    let k = choose|k: int| 0 <= k < seen.len() && seen[k] == c;
                    assert(more[k] == c);
                }
                if c == x {
                    assert(more[i as int] == c);
                }
                if more.contains(c) {
                    let k = choose|k: int| 0 <= k < more.len() && more[k] == c;
                    if k < i {
                        assert(seen[k] == c);
                    }
                }
            }
        }
        match &local[i] {
            Capability::MultiProtocol { family } => {
                if can_carry(remote, *family) && !has_family(&r, *family) {
                    r.push(*family);
                    proof {
                        let f = *family;
                        assert forall|k: Family| #[trigger]
                            r@.contains(k) == (before.contains(k) || k == f) by {
                            if before.contains(k) {
                                let j = choose|j: int| 0 <= j < before.len() && before[j] == k;
                                assert(r@[j] == k);
                            }
                            if k == f {
                                assert(r@[before.len() as int] == k);
                            }
                            if r@.contains(k) {
                                let j = choose|j: int| 0 <= j < r@.len() && r@[j] == k;
                                if j < before.len() {
                                    assert(before[j] == k);
                                }
                            }
                        }
                        assert(r@.no_duplicates());
                    }
                }
            },
            _ => {},
        }
        i += 1;
    }
    assert(views.take(i as int) =~= views);
    r
}

/// The announcement of a route to `r`.
pub open spec fn announcement(
    family: Family,
    source: Source,
    nexthop: IpAddr,
    attrs: Seq<AttributeView>,
) -> spec_fn(Nlri) -> TableChangeView {
    |r: Nlri| TableChangeView { family, net: r, source, nexthop, attrs }
}

/// The withdrawal of the route to `r`.
pub open spec fn withdrawal(source: Source) -> spec_fn(Nlri) -> TableChangeView {
    |r: Nlri|
        TableChangeView {
            family: bgp::unicast_family(r.net().addr),
            net: r,
            source,
            nexthop: IpAddr::V4(0),
            attrs: Seq::empty(),
        }
}

/// The announcements of the routes in the lists `s`, each with the next hop of its list.
pub open spec fn mp_announcements(
    s: Seq<(Vec<Nlri>, IpAddr)>,
    source: Source,
    attrs: Seq<AttributeView>,
) -> Seq<TableChangeView>
    decreases s.len(),
{
    if s.len() == 0 {
        Seq::empty()
    } else {
        mp_announcements(s.drop_last(), source, attrs) + s.last().0@.map_values(
            announcement(Family::Ipv6Uc, source, s.last().1, attrs),
        )
    }
}

/// The changes of the routing table that an UPDATE message of `source` asks for: first the
/// announcements, with the attributes in the order of their codes, which there are only with
/// attributes, then the withdrawals.
pub open spec fn asked_changes(u: UpdateMessage, source: Source) -> Seq<TableChangeView> {
    let attrs = update::by_code(bgp::attr_views(u.attrs@));
    (if u.attrs@.len() > 0 {
        u.routes@.map_values(announcement(Family::Ipv4Uc, source, u.nexthop, attrs))
            + mp_announcements(u.mp_routes@, source, attrs)
    } else {
        Seq::empty()
    }) + u.withdrawns@.map_values(withdrawal(source))
}

fn announce(
    nets: &Vec<Nlri>,
    family: Family,
    source: &Arc<Source>,
    nexthop: IpAddr,
    attrs: &Arc<PathAttr>,
    out: &mut Vec<TableChange>,
)
    ensures
        change_views(final(out)@) == change_views(old(out)@) + nets@.map_values(
            announcement(family, **source, nexthop, bgp::attr_views(attrs.entry@)),
        ),
{
    let ghost f = announcement(family, **source, nexthop, bgp::attr_views(attrs.entry@));
    let ghost all = nets@.map_values(f);
    let ghost before = change_views(out@);
    let mut i: usize = 0;
    assert(before + all.take(0) =~= before);
    while i < nets.len()
        invariant
            i <= nets@.len(),
            f == announcement(family, **source, nexthop, bgp::attr_views(attrs.entry@)),
            all == nets@.map_values(f),
            change_views(out@) == before + all.take(i as int),
        decreases nets@.len() - i,
    {
        let ghost done = out@;
        out.push(
            TableChange {
                family,
                net: nets[i],
                source: source.clone(),
                nexthop,
                attrs: attrs.clone(),
            },
        );
        proof {
            assert(out@.last()@ =~= all[i as int]);
            assert(change_views(out@) =~= change_views(done).push(all[i as int]));
            assert(before + all.take(i + 1) =~= (before + all.take(i as int)).push(all[i as int]));
        }
        i += 1;
    }
    assert(all.take(i as int) =~= all);
}

fn withdraw(nets: &Vec<Nlri>, source: &Arc<Source>, out: &mut Vec<TableChange>)
    ensures
        change_views(final(out)@) == change_views(old(out)@) + nets@.map_values(
            withdrawal(**source),
        ),
{
    let ghost f = withdrawal(**source);
    let ghost all = nets@.map_values(f);
    let ghost before = change_views(out@);
    let mut i: usize = 0;
    assert(before + all.take(0) =~= before);
    while i < nets.len()
        invariant
            i <= nets@.len(),
            f == withdrawal(**source),
            all == nets@.map_values(f),
            change_views(out@) == before + all.take(i as int),
        decreases nets@.len() - i,
    {
        let ghost done = out@;
        let Nlri::Ip(net) = nets[i];
        out.push(
            TableChange {
                family: bgp::family_of_addr(&net.addr),
                net: nets[i],
                source: source.clone(),
                nexthop: IpAddr::unspecified(),
                attrs: Arc::new(PathAttr { entry: Vec::new() }),
            },
        );
        proof {
            assert(out@.last()@ =~= all[i as int]);
            assert(change_views(out@) =~= change_views(done).push(all[i as int]));
            assert(before + all.take(i + 1) =~= (before + all.take(i as int)).push(all[i as int]));
        }
        i += 1;
    }
    assert(all.take(i as int) =~= all);
}

/// The changes of the routing table that an UPDATE message of `source` asks for.
pub fn changes_of(u: UpdateMessage, source: &Arc<Source>) -> (r: Vec<TableChange>)
    ensures
        change_views(r@) == asked_changes(u, **source),
{
    let mut r: Vec<TableChange> = Vec::new();
    let UpdateMessage { mut attrs, routes, withdrawns, mp_routes, nexthop } = u;
    let ghost sorted = update::by_code(bgp::attr_views(u.attrs@));
    assert(change_views(r@) =~= Seq::<TableChangeView>::empty());
    if attrs.len() > 0 {
        update::sort_attrs(&mut attrs);
        let pa = Arc::new(PathAttr { entry: attrs });
        announce(&routes, Family::Ipv4Uc, source, nexthop, &pa, &mut r);
        let ghost before = change_views(r@);
        assert(before =~= routes@.map_values(
            announcement(Family::Ipv4Uc, **source, nexthop, sorted),
        ));
        let mut i: usize = 0;
        assert(mp_routes@.take(0).len() == 0);
        assert(before + mp_announcements(mp_routes@.take(0), **source, sorted) =~= before);
        while i < mp_routes.len()
            invariant
                i <= mp_routes@.len(),
                sorted == bgp::attr_views(pa.entry@),
                change_views(r@) == before + mp_announcements(
                    mp_routes@.take(i as int),
                    **source,
                    sorted,
                ),
            decreases mp_routes@.len() - i,
        {
            let ghost done = change_views(r@);
            announce(&mp_routes[i].0, Family::Ipv6Uc, source, mp_routes[i].1, &pa, &mut r);
            proof {
                assert(mp_routes@.take(i + 1).drop_last() =~= mp_routes@.take(i as int));
                assert(before + mp_announcements(mp_routes@.take(i + 1), **source, sorted) =~= (
                before + mp_announcements(mp_routes@.take(i as int), **source, sorted))
                    + mp_routes@[i as int].0@.map_values(
                    announcement(Family::Ipv6Uc, **source, mp_routes@[i as int].1, sorted),
                ));
            }
            i += 1;
        }
        assert(mp_routes@.take(i as int) =~= mp_routes@);
    }
    withdraw(&withdrawns, source, &mut r);
    r
}

/// A speaker that only collects routes tells nobody about a route that comes in, and new peers
/// nothing.
pub proof fn law_collector_is_silent(
    t: Table,
    f: Family,
    n: Nlri,
    p: Path,
    from: Source,
    families: Seq<Family>,
    source: Arc<Source>,
)
    requires
        t.disable_best_path_selection,
    ensures
        t.deliveries(from, f, t.insert_result(f, n, p).0).len() == 0,
        first_updates(t, families, source).len() == 0,
{
}

/// Whatever a peer sends is counted as received, once, the time between KEEPALIVE messages never
/// grows, and the session stays that of the same peer.
pub proof fn law_every_message(
    before: (Session, Global, Table),
    after: (Session, Global, Table),
    msg: Message,
    now: Timestamp,
    step: Step,
)
    requires
        stepped(before, after, msg, now, step),
    ensures
        after.1.peers@[before.0.addr].counter_rx
            == before.1.peers@[before.0.addr].counter_rx.counted(msg),
        after.0.keepalive_interval <= before.0.keepalive_interval,
        after.0.addr == before.0.addr,
{
}

/// The number of destinations in the lists `s`.
pub open spec fn mp_count(s: Seq<(Vec<Nlri>, IpAddr)>) -> nat
    decreases s.len(),
{
    if s.len() == 0 {
        0
    } else {
        mp_count(s.drop_last()) + s.last().0@.len()
    }
}

/// All changes that an UPDATE message asks for come from the peer that sent it. There is one for
/// each destination in the message, but without attributes only for those that are withdrawn.
pub proof fn law_update_changes(u: UpdateMessage, source: Source, i: int)
    ensures
        0 <= i < asked_changes(u, source).len() ==> asked_changes(u, source)[i].source == source,
        asked_changes(u, source).len() == u.withdrawns@.len() + if u.attrs@.len() > 0 {
            u.routes@.len() + mp_count(u.mp_routes@)
        } else {
            0
        },
{
    let attrs = update::by_code(bgp::attr_views(u.attrs@));
    lemma_mp_announcements(u.mp_routes@, source, attrs);
}

proof fn lemma_mp_announcements(
    s: Seq<(Vec<Nlri>, IpAddr)>,
    source: Source,
    attrs: Seq<AttributeView>,
)
    ensures
        mp_announcements(s, source, attrs).len() == mp_count(s),
        forall|i: int|
            0 <= i < mp_announcements(s, source, attrs).len() ==> (#[trigger] mp_announcements(
                s,
                source,
                attrs,
            )[i]).source == source,
    decreases s.len(),
{
    if s.len() > 0 {
        lemma_mp_announcements(s.drop_last(), source, attrs);
    }
}

/// The first updates of several families are those of each, one family after the other.
pub proof fn law_first_updates_of_families(
    t: Table,
    a: Seq<Family>,
    b: Seq<Family>,
    source: Arc<Source>,
)
    ensures
        first_updates(t, a + b, source) == first_updates(t, a, source) + first_updates(
            t,
            b,
            source,
        ),
    decreases b.len(),
{
    if b.len() == 0 {
        assert(a + b =~= a);
        assert(first_updates(t, a + b, source) =~= first_updates(t, a, source) + first_updates(
            t,
            b,
            source,
        ));
    } else {
        law_first_updates_of_families(t, a, b.drop_last(), source);
        assert((a + b).drop_last() =~= a + b.drop_last());
        assert(first_updates(t, a + b, source) =~= first_updates(t, a, source) + first_updates(
            t,
            b,
            source,
        ));
    }
}

/// Of one family a new peer is told exactly one thing for each destination that has routes: its
/// first route, with the next hop and the attributes that the table holds there. Where the family
/// has no table of its own, that of the reserved family stands in for it.
pub proof fn law_first_updates_are_the_best(t: Table, f: Family, source: Arc<Source>, n: Nlri, i: int)
    requires
        t.wf(),
        !t.disable_best_path_selection,
    ensures
        ({
            let told = first_updates(t, seq![f], source);
            let g = if t.routes().contains_key(f) {
                f
            } else {
                Family::Reserved
            };
            let best = table::routes_at(t.routes(), g, n)[0];
            &&& told.len() == t.routes()[g].dom().len()
            &&& 0 <= i < told.len() ==> told[i] is NewBest && t.routes()[g].contains_key(
                told[i].nlri(),
            )
            &&& 0 <= i < told.len() && told[i].nlri() == n ==> told[i] == TableUpdate::NewBest(
                n,
                best.nexthop,
                best.attrs,
                source,
            )
            &&& t.routes()[g].contains_key(n) ==> exists|j: int|
                0 <= j < told.len() && (#[trigger] told[j]).nlri() == n
            &&& forall|x: int, y: int|
                0 <= x < y < told.len() ==> (#[trigger] told[x]).nlri() != (
                #[trigger] told[y]).nlri()
        }),
{
    let told = first_updates(t, seq![f], source);
    let d = t.walked(f).entries@;
    assert(seq![f].drop_last() =~= Seq::<Family>::empty());
    assert(family_updates(t, seq![f].drop_last(), source) =~= Seq::<TableUpdate>::empty());
    assert(told =~= rib::rib_list(d).map_values(first_update(source)));
    table::lemma_walked(t, f);
    vecmap::lemma_len(d);
    let g = if t.routes().contains_key(f) {
        f
    } else {
        Family::Reserved
    };
    assert(t.routes()[g] == rib::rib_map(d));
    assert(rib::rib_map(d).dom() =~= vecmap::map_of(d).dom());
    assert forall|j: int| 0 <= j < told.len() implies (#[trigger] told[j]).nlri() == d[j].0 by {
        assert(told[j] == first_update(source)((d[j].0, d[j].1.entry@)));
    }
    if 0 <= i < told.len() {
        vecmap::lemma_entry(d, i);
        table::law_walked(t, f, i);
        assert(told[i] == first_update(source)((d[i].0, d[i].1.entry@)));
    }
    if t.routes()[g].contains_key(n) {
        vecmap::lemma_key(d, n);
        assert(told[vecmap::key_pos(d, n)].nlri() == n);
    }
    assert forall|x: int, y: int| 0 <= x < y < told.len() implies (#[trigger] told[x]).nlri() != (
    #[trigger] told[y]).nlri() by {
        assert(d[x].0.id() != d[y].0.id());
    }
}

/// An OPEN message is refused exactly when an AS is configured for the peer and the message names
/// another. Then the session and the table stay as they were, and the peer is idle. Otherwise it
/// is answered with a KEEPALIVE message, the peer has the AS, the router id and the capabilities
/// that the message names, and the families of the session are those that both ends can carry.
pub proof fn law_open_message(
    before: (Session, Global, Table),
    after: (Session, Global, Table),
    open: OpenMessage,
    now: Timestamp,
    step: Step,
    f: Family,
)
    requires
        stepped(before, after, Message::Open(open), now, step),
    ensures
        ({
            let a = before.0.addr;
            let p = before.1.peers@[a];
            let q = after.1.peers@[a];
            let refused = p.remote_as != 0 && p.remote_as != open.as_number;
            &&& (step == Step::Refuse(NotificationCode::OpenMessageBadPeerAs)) == refused
            &&& (step is SendKeepalive) == !refused
            &&& q.router_id == open.id
            &&& refused ==> after.0 == before.0 && after.2 == before.2 && q.state == State::Idle
                && q.remote_as == p.remote_as
            &&& !refused ==> {
                &&& q.remote_as == open.as_number
                &&& q.state == State::OpenConfirm
                &&& after.0.state == State::OpenConfirm
                &&& after.0.source == before.0.source
                &&& after.0.keepalive_interval <= before.0.keepalive_interval
                &&& after.0.keepalive_interval <= open.holdtime / 3
                &&& after.0.keepalive_interval == before.0.keepalive_interval
                    || after.0.keepalive_interval == open.holdtime / 3
                &&& q.counter_tx == p.counter_tx.counted(Message::Keepalive)
                &&& q.local_cap == p.local_cap
                &&& after.2.bgp_sessions@[a].families@.no_duplicates()
                &&& after.2.bgp_sessions@[a].families@.contains(f) == ((exists|i: int|
                    0 <= i < p.local_cap@.len() && (#[trigger] p.local_cap@[i])@
                        == (CapabilityView::MultiProtocol { family: f })) && (exists|i: int|
                    0 <= i < open.params@.len() && (#[trigger] open.params@[i] matches
                        OpenParam::CapabilityParam(c) && c@ == (CapabilityView::MultiProtocol {
                        family: f,
                    }))))
                &&& after.2.bgp_sessions@[a].source == before.2.bgp_sessions@[a].source
                &&& after.2.routes() == before.2.routes()
            }
        }),
{
    let a = before.0.addr;
    let p = before.1.peers@[a];
    let q = after.1.peers@[a];
    let caps = open.params@.filter_map(param_capability());
    let x = CapabilityView::MultiProtocol { family: f };
    let local = bgp::cap_views(p.local_cap@);
    if local.contains(x) {
        let i = choose|i: int| 0 <= i < local.len() && local[i] == x;
        assert(p.local_cap@[i]@ == x);
    }
    if exists|i: int| 0 <= i < p.local_cap@.len() && (#[trigger] p.local_cap@[i])@ == x {
        let i = choose|i: int| 0 <= i < p.local_cap@.len() && (#[trigger] p.local_cap@[i])@ == x;
        assert(local[i] == x);
    }
    lemma_params(open.params@, x);
}

proof fn lemma_params(s: Seq<OpenParam>, x: CapabilityView)
    ensures
        s.filter_map(param_capability()).contains(x) == exists|i: int|
            0 <= i < s.len() && (#[trigger] s[i] matches OpenParam::CapabilityParam(c) && c@ == x),
    decreases s.len(),
{
    if s.len() == 0 {
        lists::lemma_filter_map_empty(s, param_capability());
    } else {
        let t = s.drop_last();
        assert(s =~= t.push(s.last()));
        lemma_params(t, x);
        lists::lemma_filter_map_push(t, param_capability(), s.last());
        let before = t.filter_map(param_capability());
        let all = s.filter_map(param_capability());
        if before.contains(x) {
            let i = choose|i: int| 0 <= i < before.len() && before[i] == x;
            assert(all[i] == x);
            let j = choose|j: int|
                0 <= j < t.len() && (#[trigger] t[j] matches OpenParam::CapabilityParam(c) && c@
                    == x);
            assert(s[j] == t[j]);
        }
        if param_capability()(s.last()) == Some(x) {
            assert(all[before.len() as int] == x);
            assert(s[s.len() - 1] == s.last());
        }
        if all.contains(x) && !before.contains(x) {
            let i = choose|i: int| 0 <= i < all.len() && all[i] == x;
            if i < before.len() {
                assert(before[i] == x);
            }
        }
        if exists|i: int|
            0 <= i < s.len() && (#[trigger] s[i] matches OpenParam::CapabilityParam(c) && c@ == x) {
            let i = choose|i: int|
                0 <= i < s.len() && (#[trigger] s[i] matches OpenParam::CapabilityParam(c) && c@
                    == x);
            if i < t.len() {
                assert(t[i] == s[i]);
            }
        }
    }
}

/// The KEEPALIVE message that brings a session up has the peer and the session established, notes
/// the time, takes a peer of the own AS for one, and has the best routes of the agreed families
/// told to the peer, and all monitoring stations told that it is up. Later ones change nothing but
/// the count.
pub proof fn law_keepalive_message(
    before: (Session, Global, Table),
    after: (Session, Global, Table),
    now: Timestamp,
    step: Step,
)
    requires
        stepped(before, after, Message::Keepalive, now, step),
    ensures
        ({
            let a = before.0.addr;
            let p = before.1.peers@[a];
            let q = after.1.peers@[a];
            let n = after.2.bgp_sessions@[a];
            &&& after.2.routes() == before.2.routes()
            &&& before.0.state == State::Established ==> step is Continue && after.0 == before.0
                && after.2 == before.2 && q.state == p.state && q.uptime == p.uptime
            &&& before.0.state != State::Established ==> {
                &&& step is Established
                &&& after.0.state == State::Established
                &&& after.0.addr == a
                &&& after.0.keepalive_interval == before.0.keepalive_interval
                &&& q.state == State::Established
                &&& q.uptime == now
                &&& q.downtime == p.downtime
                &&& q.remote_as == p.remote_as
                &&& n.source == after.0.source
                &&& n.families == before.2.bgp_sessions@[a].families
                &&& n.accepted == before.2.bgp_sessions@[a].accepted
                &&& after.0.source.address == a
                &&& after.0.source.local_addr == before.0.local_addr
                &&& after.0.source.local_as == p.local_as
                &&& after.0.source.ibgp == (p.local_as == p.remote_as)
                &&& after.0.source.state == State::Established
                &&& step->Established_1@ == first_updates(
                    before.2,
                    before.2.bgp_sessions@[a].families@,
                    after.0.source,
                )
                &&& step->Established_0 is Some == (before.2.bmp_sessions.entries@.len() > 0)
                &&& step->Established_0 is Some ==> {
                    let m = step->Established_0->0@;
                    &&& m is PeerUpNotification
                    &&& m->PeerUpNotification_0.peer_header.address == p.address
                    &&& m->PeerUpNotification_0.peer_header.as_number == p.remote_as
                    &&& m->PeerUpNotification_0.peer_header.router_id == p.router_id
                    &&& m->PeerUpNotification_0.peer_header.timestamp == now
                    &&& m->PeerUpNotification_0.local_address == a
                    &&& m->PeerUpNotification_0.sent_open.router_id == before.1.id
                    &&& m->PeerUpNotification_0.sent_open.capabilities == bgp::cap_views(
                        p.local_cap@,
                    )
                    &&& m->PeerUpNotification_0.received_open.capabilities == bgp::cap_views(
                        p.remote_cap@,
                    )
                }
            }
            &&& q == (Peer {
                state: q.state,
                uptime: q.uptime,
                counter_rx: p.counter_rx.counted(Message::Keepalive),
                ..p
            })
        }),
{
}

/// An UPDATE message asks for changes only, a NOTIFICATION message ends the session, and all other
/// messages do nothing. None of them changes the session or the table by itself.
pub proof fn law_other_message(
    before: (Session, Global, Table),
    after: (Session, Global, Table),
    msg: Message,
    now: Timestamp,
    step: Step,
)
    requires
        stepped(before, after, msg, now, step),
        !(msg is Open),
        !(msg is Keepalive),
    ensures
        after.0 == before.0,
        after.2 == before.2,
        after.1.peers@[before.0.addr] == (Peer {
            counter_rx: before.1.peers@[before.0.addr].counter_rx.counted(msg),
            ..before.1.peers@[before.0.addr]
        }),
        (step is Change) == (msg is Update),
        msg matches Message::Update(u) ==> change_views(step->Change_0@) == asked_changes(
            u,
            *before.0.source,
        ),
        (step is Close) == (msg is Notification),
        (step is Continue) == (msg is RouteRefresh || msg is Unknown),
{
}

/// What an UPDATE message with attributes announces comes in with all attributes of the message, in
/// the order of their codes: the IPv4 routes, with the next hop of the message, then those of the
/// multiprotocol attribute. Without attributes nothing is announced. What it withdraws comes last,
/// each under the family of its address, without attributes.
pub proof fn law_changes_of_an_update(u: UpdateMessage, source: Source, i: int)
    ensures
        ({
            let all = asked_changes(u, source);
            let announced = if u.attrs@.len() > 0 {
                u.routes@.len() + mp_count(u.mp_routes@)
            } else {
                0
            };
            let w = announced + i;
            &&& u.attrs@.len() > 0 && 0 <= i < u.routes@.len() ==> all[i].family
                == Family::Ipv4Uc && all[i].net == u.routes@[i] && all[i].nexthop == u.nexthop
                && all[i].attrs == update::by_code(bgp::attr_views(u.attrs@))
            &&& u.attrs@.len() > 0 && 0 <= i < mp_count(u.mp_routes@) ==> all[u.routes@.len() + i]
                == mp_announcements(
                u.mp_routes@,
                source,
                update::by_code(bgp::attr_views(u.attrs@)),
            )[i]
            &&& 0 <= i < u.withdrawns@.len() ==> all[w].net == u.withdrawns@[i] && all[w].attrs.len()
                == 0 && all[w].family == (match u.withdrawns@[i] {
                Nlri::Ip(net) => match net.addr {
                    IpAddr::V4(_) => Family::Ipv4Uc,
                    IpAddr::V6(_) => Family::Ipv6Uc,
                },
            })
            &&& 0 <= i < all.len() ==> all[i].source == source
        }),
{
    let attrs = update::by_code(bgp::attr_views(u.attrs@));
    lemma_mp_announcements(u.mp_routes@, source, attrs);
}

/// Each route of the multiprotocol attribute is announced as one of IPv6, with the next hop of its
/// list.
pub proof fn law_changes_of_mp_routes(
    s: Seq<(Vec<Nlri>, IpAddr)>,
    source: Source,
    attrs: Seq<AttributeView>,
    x: int,
    y: int,
)
    requires
        0 <= x < s.len(),
        0 <= y < s[x].0@.len(),
    ensures
        mp_announcements(s, source, attrs)[mp_count(s.take(x)) + y] == (TableChangeView {
            family: Family::Ipv6Uc,
            net: s[x].0@[y],
            source,
            nexthop: s[x].1,
            attrs,
        }),
        mp_count(s.take(x)) + y < mp_announcements(s, source, attrs).len(),
    decreases s.len(),
{
    let t = s.drop_last();
    lemma_mp_announcements(t, source, attrs);
    if x < t.len() {
        law_changes_of_mp_routes(t, source, attrs, x, y);
        assert(t.take(x) =~= s.take(x));
        assert(t[x] == s[x]);
    } else {
        assert(s.take(x) =~= t);
    }
}

/// What a session does leaves all other peers and all other sessions as they are, and everything
/// else of the speaker and of the table.
pub proof fn law_others_stay(
    g: (Global, Global),
    t: (Table, Table),
    a: IpAddr,
    b: IpAddr,
)
    requires
        only_peer(g.1, g.0, a),
        only_session(t.1, t.0, a),
        b != a,
    ensures
        g.1.as_number == g.0.as_number,
        g.1.id == g.0.id,
        g.1.listen_port == g.0.listen_port,
        g.1.peer_group == g.0.peer_group,
        g.1.peers@.contains_key(a),
        g.1.peers@.contains_key(b) == g.0.peers@.contains_key(b),
        g.0.peers@.contains_key(b) ==> g.1.peers@[b] == g.0.peers@[b],
        t.1.local_source == t.0.local_source,
        t.1.disable_best_path_selection == t.0.disable_best_path_selection,
        t.1.master == t.0.master,
        t.1.roa == t.0.roa,
        t.1.bmp_sessions == t.0.bmp_sessions,
        t.1.rtr_sessions == t.0.rtr_sessions,
        t.1.bgp_sessions@.contains_key(a),
        t.1.bgp_sessions@.contains_key(b) == t.0.bgp_sessions@.contains_key(b),
        t.0.bgp_sessions@.contains_key(b) ==> t.1.bgp_sessions@[b] == t.0.bgp_sessions@[b],
{
}

} // verus!
