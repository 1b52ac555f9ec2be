//! The peers of the speaker.
use vstd::prelude::*;
use crate::addr::{IpAddr, IpNet, Ipv4Addr};
use crate::api;
use crate::bgp;
use crate::bgp::{Capability, CapabilityView, Family, State};
use crate::bmp;
use crate::bmp::{OpenPdu, PeerDownNotification, PeerHeader, PeerUpNotification};
use crate::counter::MessageCounter;
use crate::show;
use crate::time::Timestamp;
use crate::vecmap::VecMap;

verus! {

/// The hold time of a peer for which none is configured, in seconds.
pub const DEFAULT_HOLD_TIME: u64 = 180;

/// The time between attempts to connect where none is configured, in seconds.
pub const DEFAULT_CONNECT_RETRY_TIME: u64 = 3;

/// A peer, configured or accepted.
pub struct Peer {
    pub address: IpAddr,
    pub local_port: u16,
    pub remote_port: u16,
    /// The AS number of the peer, zero while any is accepted.
    pub remote_as: u32,
    pub router_id: Ipv4Addr,
    pub local_as: u32,
    pub peer_type: u8,
    /// Whether the peer is waited for.
    pub passive: bool,
    pub delete_on_disconnected: bool,
    pub hold_time: u64,
    pub connect_retry_time: u64,
    pub state: State,
    pub uptime: Timestamp,
    pub downtime: Timestamp,
    pub counter_tx: MessageCounter,
    pub counter_rx: MessageCounter,
    /// How many routes of each family the peer has announced.
    pub accepted: VecMap<Family, u64>,
    pub remote_cap: Vec<Capability>,
    pub local_cap: Vec<Capability>,
}

/// The capabilities to carry routes of the families `s`.
pub open spec fn multi_protocol(s: Seq<Family>) -> Seq<CapabilityView> {
    s.map_values(|f: Family| CapabilityView::MultiProtocol { family: f })
}

/// How the numbers of accepted routes are shown.
pub open spec fn shown_accepted(s: Seq<(Family, u64)>) -> Seq<api::AfiSafi> {
    s.map_values(
        |e: (Family, u64)|
            api::AfiSafi {
                config: None,
                state: Some(
                    api::AfiSafiState {
                        family: Some(e.0.spec_to_api()),
                        enabled: true,
                        received: e.1,
                        accepted: e.1,
                    },
                ),
            },
    )
}

impl Peer {
    pub open spec fn wf(self) -> bool {
        self.accepted.wf()
    }

    /// The capabilities that a speaker of the AS `as_number` always has.
    pub open spec fn basic_capabilities(as_number: u32) -> Seq<CapabilityView> {
        seq![CapabilityView::RouteRefresh, CapabilityView::FourOctetAsNumber { as_number }]
    }

    /// A peer as it is before anything is configured.
    pub fn new(address: IpAddr, as_number: u32) -> (r: Peer)
        ensures
            r.wf(),
            r.address == address,
            r.local_port == 0,
            r.remote_port == 0,
            r.remote_as == 0,
            r.router_id == 0,
            r.local_as == as_number,
            r.peer_type == 0,
            !r.passive,
            !r.delete_on_disconnected,
            r.hold_time == DEFAULT_HOLD_TIME,
            r.connect_retry_time == DEFAULT_CONNECT_RETRY_TIME,
            r.state == State::Idle,
            r.uptime == Timestamp::spec_epoch(),
            r.downtime == Timestamp::spec_epoch(),
            r.counter_tx == MessageCounter::zero(),
            r.counter_rx == MessageCounter::zero(),
            r.accepted@ == Map::<Family, u64>::empty(),
            r.remote_cap@ == Seq::<Capability>::empty(),
            bgp::cap_views(r.local_cap@) == Peer::basic_capabilities(as_number),
    {
        let mut local_cap: Vec<Capability> = Vec::new();
        local_cap.push(Capability::RouteRefresh);
        local_cap.push(Capability::FourOctetAsNumber { as_number });
        assert(bgp::cap_views(local_cap@) =~= Peer::basic_capabilities(as_number));
        Peer {
            address,
            local_port: 0,
            remote_port: 0,
            remote_as: 0,
            router_id: 0,
            local_as: as_number,
            peer_type: 0,
            passive: false,
            delete_on_disconnected: false,
            hold_time: DEFAULT_HOLD_TIME,
            connect_retry_time: DEFAULT_CONNECT_RETRY_TIME,
            state: State::Idle,
            uptime: Timestamp::epoch(),
            downtime: Timestamp::epoch(),
            counter_tx: MessageCounter::default(),
            counter_rx: MessageCounter::default(),
            accepted: VecMap::new(),
            remote_cap: Vec::new(),
            local_cap,
        }
    }

    /// The peer, with the families added to what the speaker can do with it.
    pub fn families(self, families: Vec<Family>) -> (r: Self)
        ensures
            r == (Peer { local_cap: r.local_cap, ..self }),
            bgp::cap_views(r.local_cap@) == bgp::cap_views(self.local_cap@) + multi_protocol(
                families@,
            ),
    {
        let mut p = self;
        let mut i: usize = 0;
        let ghost caps = multi_protocol(families@);
        assert(bgp::cap_views(self.local_cap@) + caps.take(0) =~= bgp::cap_views(self.local_cap@));
        while i < families.len()
            invariant
                i <= families@.len(),
                caps == multi_protocol(families@),
                p == (Peer { local_cap: p.local_cap, ..self }),
                bgp::cap_views(p.local_cap@) == bgp::cap_views(self.local_cap@) + caps.take(
                    i as int,
                ),
            decreases families@.len() - i,
        {
            let ghost before = p.local_cap@;
            p.local_cap.push(Capability::MultiProtocol { family: families[i] });
            proof {
                assert(bgp::cap_views(p.local_cap@) =~= bgp::cap_views(before).push(
                    caps[i as int],
                ));
                assert(bgp::cap_views(self.local_cap@) + caps.take(i + 1) =~= (bgp::cap_views(
                    self.local_cap@,
                ) + caps.take(i as int)).push(caps[i as int]));
            }
            i += 1;
        }
        assert(caps.take(i as int) =~= caps);
        p
    }

    /// The peer, with the port that it listens on.
    pub fn remote_port(self, remote_port: u16) -> (r: Self)
        ensures
            r == (Peer { remote_port, ..self }),
    {
        let mut p = self;
        p.remote_port = remote_port;
        p
    }

    /// The peer, with its AS number.
    pub fn remote_as(self, remote_as: u32) -> (r: Self)
        ensures
            r == (Peer { remote_as, ..self }),
    {
        let mut p = self;
        p.remote_as = remote_as;
        p
    }

    /// The peer, waited for or not.
    pub fn passive(self, passive: bool) -> (r: Self)
        ensures
            r == (Peer { passive, ..self }),
    {
        let mut p = self;
        p.passive = passive;
        p
    }

    /// The peer, to be forgotten with the end of the session or not.
    pub fn delete_on_disconnected(self, delete: bool) -> (r: Self)
        ensures
            r == (Peer { delete_on_disconnected: delete, ..self }),
    {
        let mut p = self;
        p.delete_on_disconnected = delete;
        p
    }

    /// The peer, in a state.
    pub fn state(self, state: State) -> (r: Self)
        ensures
            r == (Peer { state, ..self }),
    {
        let mut p = self;
        p.state = state;
        p
    }

    /// The peer, with a hold time. Zero leaves the one it has.
    pub fn hold_time(self, t: u64) -> (r: Self)
        ensures
            r == (if t != 0 {
                Peer { hold_time: t, ..self }
            } else {
                self
            }),
    {
        let mut p = self;
        if t != 0 {
            p.hold_time = t;
        }
        p
    }

    /// The peer, with a time between attempts to connect. Zero leaves the one it has.
    pub fn connect_retry_time(self, t: u64) -> (r: Self)
        ensures
            r == (if t != 0 {
                Peer { connect_retry_time: t, ..self }
            } else {
                self
            }),
    {
        let mut p = self;
        if t != 0 {
            p.connect_retry_time = t;
        }
        p
    }

    /// Takes the peer back to where it was before the session, which ended at the time `now`.
    pub fn reset_at(&mut self, now: Timestamp)
        ensures
            *final(self) == (Peer {
                state: State::Idle,
                downtime: now,
                accepted: final(self).accepted,
                remote_cap: final(self).remote_cap,
                ..*old(self)
            }),
            final(self).accepted.wf(),
            final(self).accepted@ == Map::<Family, u64>::empty(),
            final(self).remote_cap@ == Seq::<Capability>::empty(),
    {
        self.state = State::Idle;
        self.downtime = now;
        self.accepted = VecMap::new();
        self.remote_cap = Vec::new();
    }

    /// Takes the peer back to where it was before the session, which has just ended.
    pub fn reset(&mut self)
        ensures
            *final(self) == (Peer {
                state: State::Idle,
                downtime: final(self).downtime,
                accepted: final(self).accepted,
                remote_cap: final(self).remote_cap,
                ..*old(self)
            }),
            final(self).accepted.wf(),
            final(self).accepted@ == Map::<Family, u64>::empty(),
            final(self).remote_cap@ == Seq::<Capability>::empty(),
    {
        self.reset_at(Timestamp::now());
    }

    /// What an OPEN message of the speaker `router_id` to the peer carries.
    pub open spec fn open_sent(self, router_id: Ipv4Addr) -> bmp::OpenPduView {
        bmp::OpenPduView { router_id, capabilities: bgp::cap_views(self.local_cap@) }
    }

    /// What the OPEN message of the peer has carried.
    pub open spec fn open_received(self) -> bmp::OpenPduView {
        bmp::OpenPduView {
            router_id: self.router_id,
            capabilities: bgp::cap_views(self.remote_cap@),
        }
    }

    /// What an OPEN message of the speaker `router_id` to the peer carries.
    pub fn to_open(&self, router_id: Ipv4Addr) -> (r: OpenPdu)
        ensures
            r@ == self.open_sent(router_id),
    {
        OpenPdu { router_id, capabilities: bgp::clone_capabilities(&self.local_cap) }
    }

    /// How monitoring stations are told which peer a message is about.
    pub open spec fn bmp_header(self) -> PeerHeader {
        PeerHeader {
            address: self.address,
            as_number: self.remote_as,
            router_id: self.router_id,
            timestamp: self.uptime,
        }
    }

    /// How monitoring stations are told which peer a message is about.
    pub fn to_bmp_ph(&self) -> (r: PeerHeader)
        ensures
            r == self.bmp_header(),
    {
        PeerHeader {
            address: self.address,
            as_number: self.remote_as,
            router_id: self.router_id,
            timestamp: self.uptime,
        }
    }

    /// How monitoring stations are told that the session with the peer is up.
    pub open spec fn bmp_up(
        self,
        router_id: Ipv4Addr,
        local_address: IpAddr,
    ) -> bmp::PeerUpNotificationView {
        bmp::PeerUpNotificationView {
            peer_header: self.bmp_header(),
            local_address,
            local_port: self.local_port,
            remote_port: self.remote_port,
            sent_open: self.open_sent(router_id),
            received_open: self.open_received(),
        }
    }

    /// How monitoring stations are told that the session with the peer is up.
    pub fn to_bmp_up(&self, router_id: Ipv4Addr, local_address: IpAddr) -> (r: PeerUpNotification)
        ensures
            r@ == self.bmp_up(router_id, local_address),
    {
        PeerUpNotification {
            peer_header: self.to_bmp_ph(),
            local_address,
            local_port: self.local_port,
            remote_port: self.remote_port,
            sent_open: self.to_open(router_id),
            received_open: OpenPdu {
                router_id: self.router_id,
                capabilities: bgp::clone_capabilities(&self.remote_cap),
            },
        }
    }

    /// How monitoring stations are told that the session with the peer is down.
    pub open spec fn bmp_down(self, r: u8) -> bmp::PeerDownNotificationView {
        bmp::PeerDownNotificationView {
            peer_header: self.bmp_header(),
            reason: r,
            payload: Seq::empty(),
            data: Seq::empty(),
        }
    }

    /// How monitoring stations are told that the session with the peer is down.
    pub fn to_bmp_down(&self, reason: u8) -> (r: PeerDownNotification)
        ensures
            r@ == self.bmp_down(reason),
    {
        let r = PeerDownNotification {
            peer_header: self.to_bmp_ph(),
            reason,
            payload: Vec::new(),
            data: Vec::new(),
        };
        assert(r@ =~= self.bmp_down(reason));
        r
    }

    /// How the peer is shown. The times of the session are shown once it has been up.
    pub open spec fn spec_to_api(self) -> api::PeerView {
        api::PeerView {
            conf: Some(api::PeerConf { neighbor_address: None, local_as: 0, peer_as: 0 }),
            timers: Some(
                api::Timers {
                    config: Some(api::TimersConfig { connect_retry: 0, hold_time: 0 }),
                    state: Some(
                        if self.uptime == Timestamp::spec_epoch() {
                            api::TimersState { uptime: None, downtime: None }
                        } else {
                            api::TimersState {
                                uptime: Some(self.uptime.spec_to_api()),
                                downtime: if self.downtime == Timestamp::spec_epoch() {
                                    None
                                } else {
                                    Some(self.downtime.spec_to_api())
                                },
                            }
                        },
                    ),
                },
            ),
            transport: None,
            afi_safis: shown_accepted(self.accepted.entries@),
            state: Some(
                api::PeerStateView {
                    neighbor_address: self.address,
                    peer_as: self.remote_as,
                    router_id: self.router_id,
                    messages: api::Messages {
                        received: self.counter_rx.spec_to_api(),
                        sent: self.counter_tx.spec_to_api(),
                    },
                    remote_cap: show::shown_capabilities(bgp::cap_views(self.remote_cap@)),
                    local_cap: show::shown_capabilities(bgp::cap_views(self.local_cap@)),
                    session_state: self.state,
                },
            ),
        }
    }

    /// Whether the peer can be shown: none of the times that are shown lies before the Unix epoch.
    pub open spec fn is_showable(self) -> bool {
        self.uptime == Timestamp::spec_epoch() || !self.uptime.spec_is_before_epoch()
            && !self.downtime.spec_is_before_epoch()
    }

    /// Whether the peer can be shown.
    pub fn can_show(&self) -> (r: bool)
        ensures
            r == self.is_showable(),
    {
        self.uptime == Timestamp::epoch() || !self.uptime.is_before_epoch()
            && !self.downtime.is_before_epoch()
    }

    /// How the peer is shown.
    pub fn to_api(&self) -> (r: api::Peer)
        requires
            self.is_showable(),
        ensures
            r@ == self.spec_to_api(),
    {
        let ps = api::PeerState {
            neighbor_address: self.address,
            peer_as: self.remote_as,
            router_id: self.router_id,
            messages: api::Messages {
                received: self.counter_rx.to_api(),
                sent: self.counter_tx.to_api(),
            },
            remote_cap: show::show_capabilities(&self.remote_cap),
            local_cap: show::show_capabilities(&self.local_cap),
            session_state: self.state,
        };
        let mut ts = api::TimersState { uptime: None, downtime: None };
        if self.uptime != Timestamp::epoch() {
            ts.uptime = Some(self.uptime.to_api());
            if self.downtime != Timestamp::epoch() {
                ts.downtime = Some(self.downtime.to_api());
            }
        }
        let mut afi_safis: Vec<api::AfiSafi> = Vec::new();
        let mut i: usize = 0;
        let ghost all = shown_accepted(self.accepted.entries@);
        while i < self.accepted.entries.len()
            invariant
                i <= self.accepted.entries@.len(),
                all == shown_accepted(self.accepted.entries@),
                afi_safis@ == all.take(i as int),
            decreases self.accepted.entries@.len() - i,
        {
            let e = &self.accepted.entries[i];
            afi_safis.push(
                api::AfiSafi {
                    config: None,
                    state: Some(
                        api::AfiSafiState {
                            family: Some(e.0.to_api()),
                            enabled: true,
                            received: e.1,
                            accepted: e.1,
                        },
                    ),
                },
            );
            assert(all.take(i + 1) =~= all.take(i as int).push(all[i as int]));
            i += 1;
        }
        assert(all.take(i as int) =~= all);
        let r = api::Peer {
            conf: Some(api::PeerConf { neighbor_address: None, local_as: 0, peer_as: 0 }),
            timers: Some(
                api::Timers {
                    config: Some(api::TimersConfig { connect_retry: 0, hold_time: 0 }),
                    state: Some(ts),
                },
            ),
            transport: None,
            afi_safis,
            state: Some(ps),
        };
        assert(r@ =~= self.spec_to_api());
        r
    }
}

/// Peers that are accepted without being configured one by one: those with an address in a prefix.
#[derive(Clone, Copy, PartialEq, Eq, Structural, Debug)]
pub struct DynamicPeer {
    pub prefix: IpNet,
}

/// A group of peers.
pub struct PeerGroup {
    pub as_number: u32,
    pub dynamic_peers: Vec<DynamicPeer>,
}

impl PeerGroup {
    /// No prefix occurs twice.
    pub open spec fn wf(self) -> bool {
        self.dynamic_peers@.no_duplicates()
    }
}

/// The speaker and its peers.
pub struct Global {
    pub as_number: u32,
    pub id: Ipv4Addr,
    pub listen_port: u16,
    pub peers: VecMap<IpAddr, Peer>,
    pub peer_group: VecMap<String, PeerGroup>,
}

impl Global {
    /// Peers and groups are found under one key each, peers under their addresses.
    pub open spec fn wf(self) -> bool {
        &&& self.peers.wf()
        &&& forall|a: IpAddr| #[trigger]
            self.peers@.contains_key(a) ==> self.peers@[a].wf() && self.peers@[a].address == a
        &&& self.peer_group.wf()
        &&& forall|n: Seq<char>| #[trigger]
            self.peer_group@.contains_key(n) ==> self.peer_group@[n].wf()
    }

    /// A speaker without peers.
    pub fn new(asn: u32, id: Ipv4Addr) -> (r: Global)
        ensures
            r.wf(),
            r.as_number == asn,
            r.id == id,
            r.listen_port == bgp::BGP_PORT,
            r.peers@ == Map::<IpAddr, Peer>::empty(),
            r.peer_group@ == Map::<Seq<char>, PeerGroup>::empty(),
    {
        Global {
            as_number: asn,
            id,
            listen_port: bgp::BGP_PORT,
            peers: VecMap::new(),
            peer_group: VecMap::new(),
        }
    }

    /// How the speaker is shown.
    pub open spec fn spec_to_api(self) -> api::Global {
        api::Global {
            as_number: self.as_number,
            router_id: self.id,
            listen_port: self.listen_port as i32,
        }
    }

    /// How the speaker is shown.
    pub fn to_api(&self) -> (r: api::Global)
        ensures
            r == self.spec_to_api(),
    {
        api::Global {
            as_number: self.as_number,
            router_id: self.id,
            listen_port: self.listen_port as i32,
        }
    }
}

/// Monitoring stations are told a peer by its address, its AS number, its router id and the time
/// since when its session is up.
pub proof fn law_peer_header(p: Peer)
    ensures
        p.bmp_header().address == p.address,
        p.bmp_header().as_number == p.remote_as,
        p.bmp_header().router_id == p.router_id,
        p.bmp_header().timestamp == p.uptime,
{
}

/// That a session is up is told with both OPEN messages: the one that went out with the own router
/// id and capabilities, and the one that came in with those of the peer.
pub proof fn law_session_is_up(p: Peer, router_id: Ipv4Addr, local: IpAddr, i: int)
    ensures
        ({
            let m = p.bmp_up(router_id, local);
            &&& m.peer_header == p.bmp_header()
            &&& m.local_address == local
            &&& m.local_port == p.local_port
            &&& m.remote_port == p.remote_port
            &&& m.sent_open.router_id == router_id
            &&& m.received_open.router_id == p.router_id
            &&& m.sent_open.capabilities.len() == p.local_cap@.len()
            &&& m.received_open.capabilities.len() == p.remote_cap@.len()
            &&& 0 <= i < p.local_cap@.len() ==> m.sent_open.capabilities[i] == p.local_cap@[i]@
            &&& 0 <= i < p.remote_cap@.len() ==> m.received_open.capabilities[i]
                == p.remote_cap@[i]@
        }),
{
}

/// That a session is down is told with the reason and nothing more.
pub proof fn law_session_is_down(p: Peer, reason: u8)
    ensures
        p.bmp_down(reason).peer_header == p.bmp_header(),
        p.bmp_down(reason).reason == reason,
        p.bmp_down(reason).payload.len() == 0,
        p.bmp_down(reason).data.len() == 0,
{
}

/// A speaker can always refresh routes and have an AS number of four octets. It carries routes of
/// each family that it is given, in the order they have.
pub proof fn law_capabilities(as_number: u32, s: Seq<Family>, i: int)
    ensures
        Peer::basic_capabilities(as_number).len() == 2,
        Peer::basic_capabilities(as_number)[0] is RouteRefresh,
        Peer::basic_capabilities(as_number)[1] matches CapabilityView::FourOctetAsNumber {
            as_number: n,
        } && n == as_number,
        multi_protocol(s).len() == s.len(),
        0 <= i < s.len() ==> (multi_protocol(s)[i] matches CapabilityView::MultiProtocol { family }
            && family == s[i]),
{
}

/// For each family that was counted, the number is shown both as received and as accepted.
pub proof fn law_shown_counts(s: Seq<(Family, u64)>, i: int)
    ensures
        shown_accepted(s).len() == s.len(),
        0 <= i < s.len() ==> {
            let a = shown_accepted(s)[i];
            &&& a.config is None
            &&& a.state matches Some(state) && state.family == Some(s[i].0.spec_to_api())
                && state.enabled && state.received == s[i].1 && state.accepted == s[i].1
        },
{
}

/// A peer is shown with its own address, AS number, router id, state, counters and capabilities.
/// The time since when its session is up is shown once it has been up, and the time at which it
/// went down once it has gone down since.
pub proof fn law_shown_peer(p: Peer)
    ensures
        ({
            let v = p.spec_to_api();
            &&& v.state matches Some(s) && s.neighbor_address == p.address && s.peer_as
                == p.remote_as && s.router_id == p.router_id && s.session_state == p.state
                && s.messages.received == p.counter_rx.spec_to_api() && s.messages.sent
                == p.counter_tx.spec_to_api() && s.remote_cap == show::shown_capabilities(
                bgp::cap_views(p.remote_cap@),
            ) && s.local_cap == show::shown_capabilities(bgp::cap_views(p.local_cap@))
            &&& v.afi_safis == shown_accepted(p.accepted.entries@)
            &&& v.transport is None
            &&& v.conf matches Some(c) && c.neighbor_address is None && c.local_as == 0 && c.peer_as
                == 0
            &&& v.timers matches Some(x) && x.config matches Some(c) && c.connect_retry == 0
                && c.hold_time == 0
            &&& v.timers->0.state matches Some(x) && (p.uptime.since_epoch() == 0
                && p.uptime.nanos < 1_000_000_000 ==> x.uptime is None && x.downtime is None) && (
            p.uptime.since_epoch() != 0 ==> x.uptime == Some(p.uptime.spec_to_api())) && (
            p.uptime.since_epoch() != 0 && p.downtime.since_epoch() != 0 ==> x.downtime == Some(
                p.downtime.spec_to_api(),
            )) && (p.downtime.since_epoch() == 0 && p.downtime.nanos < 1_000_000_000
                ==> x.downtime is None)
        }),
{
}

/// The speaker is shown with its AS number, its router id and the port that it listens on.
pub proof fn law_shown_speaker(g: Global)
    ensures
        g.spec_to_api().as_number == g.as_number,
        g.spec_to_api().router_id == g.id,
        g.spec_to_api().listen_port == g.listen_port,
{
}

} // verus!
