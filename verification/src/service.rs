//! The requests of the management interface.
use std::sync::Arc;
use vstd::prelude::*;
use patricia_tree::PatriciaMap;
use crate::addr::{IpAddr, IpNet, Ipv4Addr, SocketAddr};
use crate::api;
use crate::api::AnyNlri;
use crate::bgp;
use crate::bgp::{Family, Nlri};
use crate::cache;
use crate::counter::MessageCounter;
use crate::event::{Proto, SrvEvent};
use crate::lists;
use crate::native;
use crate::native::{ReadAttribute, ReadAttributeView};
use crate::path::{Path, PathAttr, TableUpdate};
use crate::peer;
use crate::peer::{DynamicPeer, Global, Peer, PeerGroup};
use crate::rib;
use crate::roa;
use crate::roa::Roa;
use crate::rtr::RtrSession;
use crate::show;
use crate::table;
use crate::table::{PeerEvent, Table};
use crate::time::Timestamp;
use crate::vecmap;
use crate::vecmap::{Key, VecMap};

verus! {

/// The class of an answer that turns a request down.
#[derive(Clone, Copy, PartialEq, Eq, Structural, Debug)]
pub enum Code {
    InvalidArgument,
    NotFound,
    AlreadyExists,
    Unimplemented,
}

/// Why a request is turned down.
#[derive(Clone, Copy, PartialEq, Eq, Structural, Debug)]
pub enum ServiceError {
    AlreadyStarted,
    InvalidAsNumber,
    InvalidRouterId,
    EmptyConfiguration,
    PeerExists,
    InvalidParameters,
    PeerUnknown,
    InvalidPeerAddress,
    PeerGroupExists,
    EmptyPeerGroup,
    EmptyNeighbor,
    InvalidPrefix,
    PeerGroupUnknown,
    PrefixExists,
    EmptyPath,
    EmptyFamily,
    EmptyNlri,
    UnknownNlri,
    InvalidNeighborName,
    InvalidTableType,
    NotImplemented,
}

impl ServiceError {
    /// The class of the answer.
    pub open spec fn spec_code(self) -> Code {
        match self {
            ServiceError::PeerExists => Code::AlreadyExists,
            ServiceError::PeerUnknown => Code::AlreadyExists,
            ServiceError::PeerGroupExists => Code::AlreadyExists,
            ServiceError::PrefixExists => Code::AlreadyExists,
            ServiceError::PeerGroupUnknown => Code::NotFound,
            ServiceError::NotImplemented => Code::Unimplemented,
            _ => Code::InvalidArgument,
        }
    }

    /// The class of the answer.
    pub fn code(&self) -> (r: Code)
        ensures
            r == self.spec_code(),
    {
        match self {
            ServiceError::PeerExists => Code::AlreadyExists,
            ServiceError::PeerUnknown => Code::AlreadyExists,
            ServiceError::PeerGroupExists => Code::AlreadyExists,
            ServiceError::PrefixExists => Code::AlreadyExists,
            ServiceError::PeerGroupUnknown => Code::NotFound,
            ServiceError::NotImplemented => Code::Unimplemented,
            _ => Code::InvalidArgument,
        }
    }

    /// The words of the answer.
    pub open spec fn spec_message(self) -> Seq<char> {
        match self {
            ServiceError::AlreadyStarted => "already started"@,
            ServiceError::InvalidAsNumber => "invalid as number"@,
            ServiceError::InvalidRouterId => "invalid router id"@,
            ServiceError::EmptyConfiguration => "empty configuration"@,
            ServiceError::PeerExists => "peer address already exists"@,
            ServiceError::InvalidParameters => "invalid parameters"@,
            ServiceError::PeerUnknown => "peer address doesn't exists"@,
            ServiceError::InvalidPeerAddress => "invalid peer address"@,
            ServiceError::PeerGroupExists => "peer group name already exists"@,
            ServiceError::EmptyPeerGroup => "peer group conf is empty"@,
            ServiceError::EmptyNeighbor => "conf is empty"@,
            ServiceError::InvalidPrefix => "prefix is invalid"@,
            ServiceError::PeerGroupUnknown => "peer group isn't found"@,
            ServiceError::PrefixExists => "prefix already exists"@,
            ServiceError::EmptyPath => "empty path"@,
            ServiceError::EmptyFamily => "empty family"@,
            ServiceError::EmptyNlri => "empty nlri"@,
            ServiceError::UnknownNlri => "unknown nlri"@,
            ServiceError::InvalidNeighborName => "invalid neighbor name"@,
            ServiceError::InvalidTableType => "invalid table type"@,
            ServiceError::NotImplemented => "Not yet implemented"@,
        }
    }

    /// The words of the answer.
    pub fn message(&self) -> (r: &'static str)
        ensures
            r@ == self.spec_message(),
    {
        match self {
            ServiceError::AlreadyStarted => "already started",
            ServiceError::InvalidAsNumber => "invalid as number",
            ServiceError::InvalidRouterId => "invalid router id",
            ServiceError::EmptyConfiguration => "empty configuration",
            ServiceError::PeerExists => "peer address already exists",
            ServiceError::InvalidParameters => "invalid parameters",
            ServiceError::PeerUnknown => "peer address doesn't exists",
            ServiceError::InvalidPeerAddress => "invalid peer address",
            ServiceError::PeerGroupExists => "peer group name already exists",
            ServiceError::EmptyPeerGroup => "peer group conf is empty",
            ServiceError::EmptyNeighbor => "conf is empty",
            ServiceError::InvalidPrefix => "prefix is invalid",
            ServiceError::PeerGroupUnknown => "peer group isn't found",
            ServiceError::PrefixExists => "prefix already exists",
            ServiceError::EmptyPath => "empty path",
            ServiceError::EmptyFamily => "empty family",
            ServiceError::EmptyNlri => "empty nlri",
            ServiceError::UnknownNlri => "unknown nlri",
            ServiceError::InvalidNeighborName => "invalid neighbor name",
            ServiceError::InvalidTableType => "invalid table type",
            ServiceError::NotImplemented => "Not yet implemented",
        }
    }
}

/// The request to start.
#[derive(Clone, Copy, PartialEq, Eq, Structural, Debug)]
pub struct StartRequest {
    pub as_number: u32,
    /// The router id, if its text is an address.
    pub router_id: Option<Ipv4Addr>,
    pub listen_port: i32,
}

/// Why a request to start is turned down.
pub open spec fn start_error(g: Global, request: Option<StartRequest>) -> Option<ServiceError> {
    match request {
        None => Some(ServiceError::EmptyConfiguration),
        Some(r) => if g.as_number != 0 {
            Some(ServiceError::AlreadyStarted)
        } else if r.as_number == 0 {
            Some(ServiceError::InvalidAsNumber)
        } else if r.router_id is None {
            Some(ServiceError::InvalidRouterId)
        } else {
            None
        },
    }
}

/// Starts the speaker.
pub fn start_bgp(g: &mut Global, request: Option<StartRequest>) -> (r: Result<(), ServiceError>)
    ensures
        match start_error(*old(g), request) {
            Some(e) => r == Err::<(), ServiceError>(e) && *final(g) == *old(g),
            None => r is Ok && *final(g) == (Global {
                as_number: request->0.as_number,
                id: request->0.router_id->0,
                listen_port: if request->0.listen_port != 0 {
                    request->0.listen_port as u16
                } else {
                    old(g).listen_port
                },
                ..*old(g)
            }),
        },
{
    match request {
        Some(global) => {
            if g.as_number != 0 {
                return Err(ServiceError::AlreadyStarted);
            }
            if global.as_number == 0 {
                return Err(ServiceError::InvalidAsNumber);
            }
            match global.router_id {
                Some(addr) => {
                    g.as_number = global.as_number;
                    g.id = addr;
                    if global.listen_port != 0 {
                        g.listen_port = global.listen_port as u16;
                    }
                },
                None => {
                    return Err(ServiceError::InvalidRouterId);
                },
            }
        },
        None => {
            return Err(ServiceError::EmptyConfiguration);
        },
    }
    Ok(())
}

/// Once started, the speaker turns every request to start with a configuration down.
pub proof fn law_started_once(g: Global, started: Global, first: StartRequest, next: StartRequest)
    requires
        start_error(g, Some(first)) is None,
        started.as_number == first.as_number,
    ensures
        start_error(started, Some(next)) == Some(ServiceError::AlreadyStarted),
{
}

/// Shows the speaker.
pub fn get_bgp(g: &Global) -> (r: api::Global)
    ensures
        r == g.spec_to_api(),
{
    g.to_api()
}

/// The own AS number towards a configured peer: the one configured for it, or that of the speaker.
pub open spec fn own_as(g: Global, peer: api::PeerView) -> u32 {
    if peer.local_as() == 0 {
        g.as_number
    } else {
        peer.local_as()
    }
}

/// Whether `p` is the peer at `addr` as `conf` configures it, for a speaker of the AS `as_number`.
pub open spec fn is_configured(
    p: Peer,
    addr: IpAddr,
    as_number: u32,
    conf: api::PeerView,
) -> bool {
    &&& p.wf()
    &&& p.address == addr
    &&& p.local_port == 0
    &&& p.remote_port == conf.remote_port()
    &&& p.remote_as == conf.remote_as()
    &&& p.router_id == 0
    &&& p.local_as == as_number
    &&& p.peer_type == 0
    &&& p.passive == conf.passive_mode()
    &&& !p.delete_on_disconnected
    &&& p.hold_time == (if conf.times().hold_time != 0 {
        conf.times().hold_time
    } else {
        peer::DEFAULT_HOLD_TIME
    })
    &&& p.connect_retry_time == (if conf.times().connect_retry != 0 {
        conf.times().connect_retry
    } else {
        peer::DEFAULT_CONNECT_RETRY_TIME
    })
    &&& p.state == bgp::State::Idle
    &&& p.uptime == Timestamp::spec_epoch()
    &&& p.downtime == Timestamp::spec_epoch()
    &&& p.counter_tx == MessageCounter::zero()
    &&& p.counter_rx == MessageCounter::zero()
    &&& p.accepted@ == Map::<Family, u64>::empty()
    &&& p.remote_cap@.len() == 0
    &&& bgp::cap_views(p.local_cap@) == Peer::basic_capabilities(as_number)
        + peer::multi_protocol(conf.families())
}

/// The address of the peer that a request configures.
pub open spec fn configured_address(conf: Option<api::PeerView>) -> Option<IpAddr> {
    match conf {
        Some(
            api::PeerView {
                conf: Some(api::PeerConf { neighbor_address: Some(addr), .. }),
                ..
            },
        ) => Some(addr),
        _ => None,
    }
}

/// Adds a peer. Gives back the event that has it connected, unless it is waited for.
pub fn add_peer(g: &mut Global, request: Option<api::Peer>) -> (r: Result<
    Option<SrvEvent>,
    ServiceError,
>)
    requires
        old(g).wf(),
    ensures
        final(g).wf(),
        match configured_address(
            match request {
                Some(p) => Some(p@),
                None => None,
            },
        ) {
            None => r == Err::<Option<SrvEvent>, ServiceError>(ServiceError::InvalidParameters)
                && *final(g) == *old(g),
            Some(addr) => if old(g).peers@.contains_key(addr) {
                r == Err::<Option<SrvEvent>, ServiceError>(ServiceError::PeerExists) && *final(g)
                    == *old(g)
            } else {
                let conf = request->0@;
                &&& *final(g) == (Global { peers: final(g).peers, ..*old(g) })
                &&& final(g).peers@.contains_key(addr)
                &&& final(g).peers@ == old(g).peers@.insert(addr, final(g).peers@[addr])
                &&& is_configured(final(g).peers@[addr], addr, own_as(*old(g), conf), conf)
                &&& r == Ok::<Option<SrvEvent>, ServiceError>(
                    if conf.passive_mode() {
                        None
                    } else {
                        Some(
                            SrvEvent::EnableActive {
                                proto: Proto::Bgp,
                                sockaddr: SocketAddr { ip: addr, port: conf.remote_port() },
                            },
                        )
                    },
                )
            },
        },
{
    if let Some(peer) = request {
        if let Some(conf) = &peer.conf {
            if let Some(addr) = conf.neighbor_address {
                let local: u32 = peer.get_local_as();
                let as_number: u32 = if local == 0 {
                    g.as_number
                } else {
                    local
                };
                if g.peers.contains_key(&addr) {
                    return Err(ServiceError::PeerExists);
                }
                let passive = peer.get_passive_mode();
                let remote_port: u16 = peer.get_remote_port();
                let p = Peer::new(addr, as_number).remote_as(peer.get_remote_as()).remote_port(
                    remote_port,
                ).families(peer.get_families()).passive(passive).hold_time(
                    peer.get_hold_time(),
                ).connect_retry_time(peer.get_connect_retry_time());
                g.peers.insert(addr, p);
                if !passive {
                    return Ok(
                        Some(
                            SrvEvent::EnableActive {
                                proto: Proto::Bgp,
                                sockaddr: SocketAddr { ip: addr, port: remote_port },
                            },
                        ),
                    );
                }
                return Ok(None);
            }
        }
    }
    Err(ServiceError::InvalidParameters)
}

/// Has the peer at an address forgotten.
pub fn delete_peer(g: &Global, address: Option<IpAddr>) -> (r: Result<SrvEvent, ServiceError>)
    requires
        g.wf(),
    ensures
        r == match address {
            None => Err::<SrvEvent, ServiceError>(ServiceError::InvalidPeerAddress),
            Some(addr) => if g.peers@.contains_key(addr) {
                Ok(SrvEvent::Deconfigured(addr))
            } else {
                Err(ServiceError::PeerUnknown)
            },
        },
{
    if let Some(addr) = address {
        if g.peers.contains_key(&addr) {
            return Ok(SrvEvent::Deconfigured(addr));
        } else {
            return Err(ServiceError::PeerUnknown);
        }
    }
    Err(ServiceError::InvalidPeerAddress)
}

/// The peers that are asked for: the one at `address`, or all.
pub open spec fn asked_for(address: Option<IpAddr>) -> spec_fn((IpAddr, Peer)) -> bool {
    |e: (IpAddr, Peer)| address is None || address == Some(e.0)
}

/// Whether `after` is the entry `before`, with the numbers of accepted routes of its session where
/// it is asked for and has one.
pub open spec fn refreshed(
    before: (IpAddr, Peer),
    after: (IpAddr, Peer),
    t: Table,
    address: Option<IpAddr>,
) -> bool {
    &&& after.0 == before.0
    &&& if asked_for(address)(before) && t.bgp_sessions@.contains_key(before.0) {
        &&& after.1 == (Peer { accepted: after.1.accepted, ..before.1 })
        &&& after.1.accepted.entries@ == t.bgp_sessions@[before.0].accepted.entries@
    } else {
        after.1 == before.1
    }
}

/// How the peers in `s` are shown.
pub open spec fn shown_peers(s: Seq<(IpAddr, Peer)>) -> Seq<api::PeerView> {
    s.map_values(|e: (IpAddr, Peer)| e.1.spec_to_api())
}

fn copied_counts(m: &VecMap<Family, u64>) -> (r: VecMap<Family, u64>)
    ensures
        r.entries@ == m.entries@,
{
    VecMap { entries: bgp::copied(&m.entries) }
}

/// Whether all peers among `s` that are asked for can be shown.
pub open spec fn peers_showable(s: Seq<(IpAddr, Peer)>, address: Option<IpAddr>) -> bool {
    forall|i: int| 0 <= i < s.len() && asked_for(address)(#[trigger] s[i]) ==> s[i].1.is_showable()
}

/// Whether all peers that are asked for can be shown.
pub fn can_list_peer(g: &Global, address: Option<IpAddr>) -> (r: bool)
    ensures
        r == peers_showable(g.peers.entries@, address),
{
    let mut i: usize = 0;
    while i < g.peers.entries.len()
        invariant
            i <= g.peers.entries@.len(),
            forall|j: int|
                0 <= j < i && asked_for(address)(#[trigger] g.peers.entries@[j])
                    ==> g.peers.entries@[j].1.is_showable(),
        decreases g.peers.entries@.len() - i,
    {
        let e = &g.peers.entries[i];
        let asked = match address {
            Some(addr) => addr == e.0,
            None => true,
        };
        if asked && !e.1.can_show() {
            assert(asked_for(address)(g.peers.entries@[i as int]));
            return false;
        }
        i += 1;
    }
    true
}

/// Shows the peers that are asked for, with the numbers of accepted routes of their sessions.
pub fn list_peer(g: &mut Global, t: &Table, address: Option<IpAddr>) -> (r: Vec<api::Peer>)
    requires
        old(g).wf(),
        t.wf(),
        peers_showable(old(g).peers.entries@, address),
    ensures
        final(g).wf(),
        *final(g) == (Global { peers: final(g).peers, ..*old(g) }),
        final(g).peers.entries@.len() == old(g).peers.entries@.len(),
        forall|i: int|
            0 <= i < old(g).peers.entries@.len() ==> refreshed(
                old(g).peers.entries@[i],
                #[trigger] final(g).peers.entries@[i],
                *t,
                address,
            ),
        api::peer_views(r@) == shown_peers(
            final(g).peers.entries@.filter(asked_for(address)),
        ),
{
    let ghost all = g.peers.entries@;
    let mut r: Vec<api::Peer> = Vec::new();
    let mut i: usize = 0;
    proof {
        lists::lemma_filter_empty(all.take(0), asked_for(address));
        assert(api::peer_views(r@) =~= shown_peers(all.take(0).filter(asked_for(address))));
        assert forall|j: int| 0 <= j < all.len() implies (#[trigger] all[j]).1.wf() && all[j].0
            == all[j].1.address by {
            vecmap::lemma_entry(all, j);
        }
    }
    while i < g.peers.entries.len()
        invariant
            t.wf(),
            i <= all.len(),
            vecmap::distinct_keys(all),
            peers_showable(all, address),
            forall|j: int|
                0 <= j < all.len() ==> (#[trigger] all[j]).1.wf() && all[j].0 == all[j].1.address,
            all == old(g).peers.entries@,
            *g == (Global { peers: g.peers, ..*old(g) }),
            g.peers.entries@.len() == all.len(),
            forall|j: int| i <= j < all.len() ==> #[trigger] g.peers.entries@[j] == all[j],
            forall|j: int|
                0 <= j < i ==> refreshed(all[j], #[trigger] g.peers.entries@[j], *t, address)
                    && g.peers.entries@[j].1.wf(),
            api::peer_views(r@) == shown_peers(
                g.peers.entries@.take(i as int).filter(asked_for(address)),
            ),
        decreases all.len() - i,
    {
        let a: IpAddr = g.peers.entries[i].0;
        let ghost before = g.peers.entries@;
        let ghost shown = r@;
        let asked = match address {
            Some(addr) => addr == a,
            None => true,
        };
        assert(before[i as int] == all[i as int]);
        assert(asked == asked_for(address)(all[i as int]));
        if asked {
            if let Some(s) = t.bgp_sessions.get(&a) {
                g.peers.entries[i].1.accepted = copied_counts(&s.accepted);
            }
            r.push(g.peers.entries[i].1.to_api());
        }
        proof {
            let now = g.peers.entries@;
            assert(now.take(i as int) =~= before.take(i as int));
            lists::lemma_filter_take(now, asked_for(address), i as int);
            if asked {
                let picked = now.take(i as int).filter(asked_for(address));
                assert(api::peer_views(r@) =~= api::peer_views(shown).push(
                    now[i as int].1.spec_to_api(),
                ));
                assert(shown_peers(picked.push(now[i as int])) =~= shown_peers(picked).push(
                    now[i as int].1.spec_to_api(),
                ));
            }
        }
        i += 1;
    }
    proof {
        let now = g.peers.entries@;
        assert(now.take(i as int) =~= now);
        vecmap::lemma_same_keys(all, now);
        assert forall|a: IpAddr| #[trigger] g.peers@.contains_key(a) implies g.peers@[a].wf()
            && g.peers@[a].address == a by {
            vecmap::lemma_key(now, a);
            let j = vecmap::key_pos(now, a);
            assert(refreshed(all[j], now[j], *t, address));
        }
    }
    r
}

/// The request to add a peer group.
#[derive(PartialEq, Eq, Debug)]
pub struct PeerGroupConf {
    pub peer_group_name: String,
    pub peer_as: u32,
}

/// Adds a peer group.
pub fn add_peer_group(g: &mut Global, request: Option<PeerGroupConf>) -> (r: Result<
    (),
    ServiceError,
>)
    requires
        old(g).wf(),
    ensures
        final(g).wf(),
        match request {
            None => r == Err::<(), ServiceError>(ServiceError::EmptyPeerGroup) && *final(g)
                == *old(g),
            Some(conf) => if old(g).peer_group@.contains_key(conf.peer_group_name@) {
                r == Err::<(), ServiceError>(ServiceError::PeerGroupExists) && *final(g) == *old(g)
            } else {
                let n = conf.peer_group_name@;
                &&& r is Ok
                &&& *final(g) == (Global { peer_group: final(g).peer_group, ..*old(g) })
                &&& final(g).peer_group@.contains_key(n)
                &&& final(g).peer_group@ == old(g).peer_group@.insert(n, final(g).peer_group@[n])
                &&& final(g).peer_group@[n].as_number == conf.peer_as
                &&& final(g).peer_group@[n].dynamic_peers@.len() == 0
            },
        },
{
    match request {
        Some(conf) => {
            if g.peer_group.contains_key(&conf.peer_group_name) {
                return Err(ServiceError::PeerGroupExists);
            }
            let p = PeerGroup { as_number: conf.peer_as, dynamic_peers: Vec::new() };
            g.peer_group.insert(conf.peer_group_name, p);
            Ok(())
        },
        None => Err(ServiceError::EmptyPeerGroup),
    }
}

/// The request to accept the peers of a prefix.
#[derive(PartialEq, Eq, Debug)]
pub struct DynamicNeighbor {
    /// The prefix, if its text is a prefix.
    pub prefix: Option<IpNet>,
    pub peer_group: String,
}

/// Why a request to accept the peers of a prefix is turned down.
pub open spec fn dynamic_error(g: Global, request: Option<DynamicNeighbor>) -> Option<
    ServiceError,
> {
    match request {
        None => Some(ServiceError::EmptyNeighbor),
        Some(r) => if r.prefix is None {
            Some(ServiceError::InvalidPrefix)
        } else if !g.peer_group@.contains_key(r.peer_group@) {
            Some(ServiceError::PeerGroupUnknown)
        } else if g.peer_group@[r.peer_group@].dynamic_peers@.contains(
            DynamicPeer { prefix: r.prefix->0 },
        ) {
            Some(ServiceError::PrefixExists)
        } else {
            None
        },
    }
}

fn has_prefix(v: &Vec<DynamicPeer>, prefix: IpNet) -> (r: bool)
    ensures
        r == v@.contains(DynamicPeer { prefix }),
{
    let mut i: usize = 0;
    while i < v.len()
        invariant
            i <= v@.len(),
            forall|j: int| 0 <= j < i ==> v@[j] != (DynamicPeer { prefix }),
        decreases v@.len() - i,
    {
        if v[i].prefix == prefix {
            assert(v@[i as int] == DynamicPeer { prefix });
            return true;
        }
        i += 1;
    }
    false
}

/// Has the peers of a prefix accepted.
pub fn add_dynamic_neighbor(g: &mut Global, request: Option<DynamicNeighbor>) -> (r: Result<
    (),
    ServiceError,
>)
    requires
        old(g).wf(),
    ensures
        final(g).wf(),
        match dynamic_error(*old(g), request) {
            Some(e) => r == Err::<(), ServiceError>(e) && final(g).as_number == old(g).as_number
                && final(g).id == old(g).id && final(g).listen_port == old(g).listen_port
                && final(g).peers == old(g).peers && final(g).peer_group@ == old(g).peer_group@,
            None => {
                let n = request->0.peer_group@;
                &&& r is Ok
                &&& *final(g) == (Global { peer_group: final(g).peer_group, ..*old(g) })
                &&& final(g).peer_group@.contains_key(n)
                &&& final(g).peer_group@ == old(g).peer_group@.insert(n, final(g).peer_group@[n])
                &&& final(g).peer_group@[n].as_number == old(g).peer_group@[n].as_number
                &&& final(g).peer_group@[n].dynamic_peers@ == old(
                    g,
                ).peer_group@[n].dynamic_peers@.push(DynamicPeer { prefix: request->0.prefix->0 })
            },
        },
{
    let dynamic = match request {
        Some(d) => d,
        None => {
            return Err(ServiceError::EmptyNeighbor);
        },
    };
    let prefix: IpNet = match dynamic.prefix {
        Some(p) => p,
        None => {
            return Err(ServiceError::InvalidPrefix);
        },
    };
    match g.peer_group.get(&dynamic.peer_group) {
        Some(pg) => {
            if has_prefix(&pg.dynamic_peers, prefix) {
                return Err(ServiceError::PrefixExists);
            }
        },
        None => {
            return Err(ServiceError::PeerGroupUnknown);
        },
    }
    let ghost n = dynamic.peer_group@;
    let ghost list = g.peer_group@[n].dynamic_peers@;
    match g.peer_group.get_mut(&dynamic.peer_group) {
        Some(pg) => {
            pg.dynamic_peers.push(DynamicPeer { prefix });
            proof {
                let d = DynamicPeer { prefix };
                assert(!list.contains(d));
                assert forall|i: int, j: int| 0 <= i < j < list.push(d).len() implies list.push(
                    d,
                )[i] != list.push(d)[j] by {
                    assert(list.push(d)[i] == list[i]);
                }
                assert(list.push(d).no_duplicates());
            }
            Ok(())
        },
        None => Err(ServiceError::PeerGroupUnknown),
    }
}

/// The route that a request speaks of.
#[derive(PartialEq, Eq, Debug)]
pub struct PathRequest {
    pub family: Option<api::Family>,
    pub nlri: Option<AnyNlri>,
}

/// Why a request about a route is turned down.
pub open spec fn target_error(path: Option<PathRequest>) -> Option<ServiceError> {
    match path {
        None => Some(ServiceError::EmptyPath),
        Some(p) => if p.family is None {
            Some(ServiceError::EmptyFamily)
        } else if p.nlri is None {
            Some(ServiceError::EmptyNlri)
        } else if p.nlri->0.spec_to_proto() is None {
            Some(ServiceError::UnknownNlri)
        } else {
            None
        },
    }
}

/// The family and the destination of the route that a request speaks of.
pub open spec fn target(p: PathRequest) -> (Family, Nlri) {
    (p.family->0.spec_to_proto(), p.nlri->0.spec_to_proto()->0)
}

/// What a reference that may be missing refers to.
pub open spec fn given(path: Option<&PathRequest>) -> Option<PathRequest> {
    match path {
        Some(p) => Some(*p),
        None => None,
    }
}

/// The family and the destination of the route that a request speaks of.
pub fn path_target(path: Option<&PathRequest>) -> (r: Result<(Family, Nlri), ServiceError>)
    ensures
        r == match target_error(given(path)) {
            Some(e) => Err::<(Family, Nlri), ServiceError>(e),
            None => Ok(target(*path->0)),
        },
{
    match path {
        None => Err(ServiceError::EmptyPath),
        Some(p) => match &p.family {
            None => Err(ServiceError::EmptyFamily),
            Some(f) => match &p.nlri {
                None => Err(ServiceError::EmptyNlri),
                Some(n) => match n.to_proto() {
                    None => Err(ServiceError::UnknownNlri),
                    Some(nlri) => Ok((f.to_proto(), nlri)),
                },
            },
        },
    }
}

/// Whether `after` is the table `before` with the route `p` to `nlri` put in, and `out` what is
/// passed on of it.
pub open spec fn announces(
    before: Table,
    after: Table,
    out: Seq<(IpAddr, PeerEvent)>,
    family: Family,
    nlri: Nlri,
    p: Path,
) -> bool {
    &&& after.same_but_routes(before)
    &&& after.routes() == table::routes_with(
        before.routes(),
        family,
        nlri,
        p,
        before.disable_best_path_selection,
    )
    &&& out == before.deliveries(
        *p.source,
        family,
        before.insert_result(family, nlri, p).0,
    )
}

/// Announces a route of the speaker itself, at the time `now`. Gives back what is passed on to the
/// peers.
pub fn add_path_at(
    t: &mut Table,
    path: Option<&PathRequest>,
    pattrs: &Vec<ReadAttribute>,
    now: Timestamp,
) -> (r: Result<Vec<(IpAddr, PeerEvent)>, ServiceError>)
    requires
        old(t).wf(),
    ensures
        final(t).wf(),
        match target_error(given(path)) {
            Some(e) => r == Err::<Vec<(IpAddr, PeerEvent)>, ServiceError>(e) && *final(t)
                == *old(t),
            None => r is Ok && exists|attrs: Arc<PathAttr>| #[trigger]
                bgp::attr_views(attrs.entry@) == native::read_views(pattrs@).filter_map(
                    native::native_attribute(),
                ) && announces(
                    *old(t),
                    *final(t),
                    r->Ok_0@,
                    target(*path->0).0,
                    target(*path->0).1,
                    Path::spec_at(
                        old(t).local_source,
                        native::native_nexthop(native::read_views(pattrs@)),
                        attrs,
                        now,
                    ),
                ),
        },
{
    let (family, nlri) = match path_target(path) {
        Ok(v) => v,
        Err(e) => {
            return Err(e);
        },
    };
    let (entry, nexthop) = native::to_native_attrs(pattrs);
    let attrs = Arc::new(PathAttr { entry });
    let s = t.local_source.clone();
    let (u, _) = t.insert_at(family, nlri, s.clone(), nexthop, attrs.clone(), now);
    let out = t.pass_on(&s, family, &u);
    proof {
        let p = Path::spec_at(old(t).local_source, nexthop, attrs, now);
        assert(announces(*old(t), *t, out@, family, nlri, p));
        assert(bgp::attr_views(attrs.entry@) == native::read_views(pattrs@).filter_map(
            native::native_attribute(),
        ));
    }
    Ok(out)
}

/// Whether `after` is the table `before` with the route that the request `p` with the attributes
/// `s` speaks of put in as a route of the speaker itself, at some time, and `out` what is passed on
/// of it.
pub open spec fn speaker_announces(
    before: Table,
    after: Table,
    out: Seq<(IpAddr, PeerEvent)>,
    p: PathRequest,
    s: Seq<ReadAttributeView>,
) -> bool {
    exists|attrs: Arc<PathAttr>, now: Timestamp|
        bgp::attr_views(attrs.entry@) == s.filter_map(native::native_attribute()) && announces(
            before,
            after,
            out,
            target(p).0,
            target(p).1,
            #[trigger] Path::spec_at(
                before.local_source,
                native::native_nexthop(s),
                attrs,
                now,
            ),
        )
}

/// Announces a route of the speaker itself. Gives back what is passed on to the peers.
pub fn add_path(
    t: &mut Table,
    path: Option<&PathRequest>,
    pattrs: &Vec<ReadAttribute>,
) -> (r: Result<Vec<(IpAddr, PeerEvent)>, ServiceError>)
    requires
        old(t).wf(),
    ensures
        final(t).wf(),
        match target_error(given(path)) {
            Some(e) => r == Err::<Vec<(IpAddr, PeerEvent)>, ServiceError>(e) && *final(t)
                == *old(t),
            None => r is Ok && speaker_announces(
                *old(t),
                *final(t),
                r->Ok_0@,
                *path->0,
                native::read_views(pattrs@),
            ),
        },
{
    let now = Timestamp::now();
    let r = add_path_at(t, path, pattrs, now);
    proof {
        if target_error(given(path)) is None {
            let nexthop = native::native_nexthop(native::read_views(pattrs@));
            let attrs = choose|attrs: Arc<PathAttr>| #[trigger]
                bgp::attr_views(attrs.entry@) == native::read_views(pattrs@).filter_map(
                    native::native_attribute(),
                ) && announces(
                    *old(t),
                    *t,
                    r->Ok_0@,
                    target(*path->0).0,
                    target(*path->0).1,
                    Path::spec_at(old(t).local_source, nexthop, attrs, now),
                );
            assert(Path::spec_at(old(t).local_source, nexthop, attrs, now).timestamp == now);
        }
    }
    r
}

/// Whether `after` is the table `before` with the routes that the requests `v` speak of put in one
/// after the other, and `out` what is passed on of them, in this order.
pub open spec fn all_announced(
    before: Table,
    after: Table,
    out: Seq<(IpAddr, PeerEvent)>,
    v: Seq<(PathRequest, Seq<ReadAttributeView>)>,
) -> bool
    decreases v.len(),
{
    if v.len() == 0 {
        after == before && out == Seq::<(IpAddr, PeerEvent)>::empty()
    } else {
        exists|mid: Table, first: Seq<(IpAddr, PeerEvent)>, last: Seq<(IpAddr, PeerEvent)>|
            all_announced(before, mid, first, v.drop_last()) && out == #[trigger] first.add(last)
                && #[trigger] speaker_announces(mid, after, last, v.last().0, v.last().1)
    }
}

/// What the requests in `v` hold.
pub open spec fn path_views(v: Seq<(PathRequest, Vec<ReadAttribute>)>) -> Seq<
    (PathRequest, Seq<ReadAttributeView>),
> {
    v.map_values(|e: (PathRequest, Vec<ReadAttribute>)| (e.0, native::read_views(e.1@)))
}

/// The position of the first request in `v` that is turned down; the length of `v` if there is
/// none.
pub open spec fn first_bad(v: Seq<(PathRequest, Seq<ReadAttributeView>)>) -> int
    decreases v.len(),
{
    if v.len() == 0 || target_error(Some(v[0].0)) is Some {
        0
    } else {
        1 + first_bad(v.drop_first())
    }
}

proof fn lemma_first_bad(v: Seq<(PathRequest, Seq<ReadAttributeView>)>, i: int)
    requires
        0 <= i <= v.len(),
        forall|j: int| 0 <= j < i ==> target_error(Some((#[trigger] v[j]).0)) is None,
        i < v.len() ==> target_error(Some(v[i].0)) is Some,
    ensures
        first_bad(v) == i,
    decreases v.len(),
{
    if i > 0 {
        let t = v.drop_first();
        assert(target_error(Some(v[0].0)) is None);
        assert forall|j: int| 0 <= j < i - 1 implies target_error(
            Some((#[trigger] t[j]).0),
        ) is None by {
            assert(t[j] == v[j + 1]);
        }
        lemma_first_bad(t, i - 1);
    }
}

/// Announces routes of the speaker itself, one after the other, until one is turned down. Gives
/// back what is passed on to the peers, of the routes before that one too, and why it is turned
/// down.
pub fn add_paths(t: &mut Table, v: &Vec<(PathRequest, Vec<ReadAttribute>)>) -> (r: (
    Vec<(IpAddr, PeerEvent)>,
    Result<(), ServiceError>,
))
    requires
        old(t).wf(),
    ensures
        final(t).wf(),
        all_announced(
            *old(t),
            *final(t),
            r.0@,
            path_views(v@).take(first_bad(path_views(v@))),
        ),
        r.1 == if first_bad(path_views(v@)) < v@.len() {
            Err::<(), ServiceError>(target_error(Some(v@[first_bad(path_views(v@))].0))->0)
        } else {
            Ok(())
        },
{
    let ghost all = path_views(v@);
    let mut out: Vec<(IpAddr, PeerEvent)> = Vec::new();
    let mut i: usize = 0;
    while i < v.len()
        invariant
            i <= v@.len(),
            all == path_views(v@),
            t.wf(),
            all_announced(*old(t), *t, out@, all.take(i as int)),
            forall|j: int| 0 <= j < i ==> target_error(Some((#[trigger] all[j]).0)) is None,
        decreases v@.len() - i,
    {
        let ghost mid = *t;
        let ghost first = out@;
        match add_path(t, Some(&v[i].0), &v[i].1) {
            Ok(mut events) => {
                let ghost last = events@;
                out.append(&mut events);
                proof {
                    assert(all.take(i + 1).drop_last() =~= all.take(i as int));
                    assert(all.take(i + 1).last() == all[i as int]);
                    assert(all_announced(*old(t), mid, first, all.take(i + 1).drop_last()));
                    assert(speaker_announces(mid, *t, last, all[i as int].0, all[i as int].1));
                    assert(out@ =~= first.add(last));
                }
            },
            Err(e) => {
                proof {
                    lemma_first_bad(all, i as int);
                }
                return (out, Err(e));
            },
        }
        i += 1;
    }
    proof {
        lemma_first_bad(all, i as int);
    }
    (out, Ok(()))
}

/// Withdraws a route of the speaker itself. Gives back what is passed on to the peers.
pub fn delete_path(t: &mut Table, path: Option<&PathRequest>) -> (r: Result<
    Vec<(IpAddr, PeerEvent)>,
    ServiceError,
>)
    requires
        old(t).wf(),
    ensures
        final(t).wf(),
        match target_error(given(path)) {
            Some(e) => r == Err::<Vec<(IpAddr, PeerEvent)>, ServiceError>(e) && *final(t)
                == *old(t),
            None => {
                let family = target(*path->0).0;
                let nlri = target(*path->0).1;
                let s = old(t).local_source;
                &&& r is Ok
                &&& final(t).same_but_routes(*old(t))
                &&& final(t).routes() == table::routes_without(
                    old(t).routes(),
                    family,
                    nlri,
                    s.address,
                )
                &&& r->Ok_0@ == old(t).deliveries(
                    *s,
                    family,
                    rib::removal_update(
                        nlri,
                        table::routes_at(old(t).routes(), family, nlri),
                        s,
                    ),
                )
            },
        },
{
    let (family, nlri) = match path_target(path) {
        Ok(v) => v,
        Err(e) => {
            return Err(e);
        },
    };
    let s = t.local_source.clone();
    let (u, _) = t.remove(family, nlri, s.clone());
    Ok(t.pass_on(&s, family, &u))
}

/// The family that a request asks about, IPv4 unicast where it names none.
pub open spec fn asked_family(f: Option<api::Family>) -> Family {
    match f {
        Some(f) => f.spec_to_proto(),
        None => Family::Ipv4Uc,
    }
}

/// The family that a request asks about.
pub fn family_or_default(f: &Option<api::Family>) -> (r: Family)
    ensures
        r == asked_family(*f),
{
    match f {
        Some(f) => f.to_proto(),
        None => Family::Ipv4Uc,
    }
}

/// How many routes the destinations in `l` have.
pub open spec fn count_paths(l: Seq<(Nlri, Seq<Path>)>) -> nat
    decreases l.len(),
{
    if l.len() == 0 {
        0
    } else {
        count_paths(l.drop_last()) + l.last().1.len()
    }
}

/// The size of a table.
#[derive(Clone, Copy, PartialEq, Eq, Structural, Debug)]
pub struct TableSize {
    pub num_destination: u64,
    pub num_path: u64,
    pub num_accepted: u64,
}

/// The size of the table of a family. The number of routes is counted in 64 bits.
pub fn get_table(t: &Table, family: &Option<api::Family>) -> (r: TableSize)
    requires
        t.wf(),
    ensures
        r.num_destination == t.walked(asked_family(*family)).entries@.len(),
        r.num_path == count_paths(rib::rib_list(t.walked(asked_family(*family)).entries@))
            % 0x1_0000_0000_0000_0000,
        r.num_accepted == 0,
{
    let family: Family = family_or_default(family);
    let m = t.master_iter(&family);
    let ghost all = rib::rib_list(m.entries@);
    let mut nr_path: u64 = 0;
    let mut i: usize = 0;
    while i < m.entries.len()
        invariant
            i <= m.entries@.len(),
            all == rib::rib_list(m.entries@),
            nr_path == count_paths(all.take(i as int)) % 0x1_0000_0000_0000_0000,
        decreases m.entries@.len() - i,
    {
        let n: u64 = m.entries[i].1.entry.len() as u64;
        proof {
            assert(all.take(i + 1).drop_last() =~= all.take(i as int));
            let c = count_paths(all.take(i as int));
            assert((c % 0x1_0000_0000_0000_0000 + n) % 0x1_0000_0000_0000_0000 == (c + n)
                % 0x1_0000_0000_0000_0000);
        }
        nr_path = nr_path.wrapping_add(n);
        i += 1;
    }
    assert(all.take(i as int) =~= all);
    TableSize { num_destination: m.entries.len() as u64, num_path: nr_path, num_accepted: 0 }
}

/// Has a cache connected.
pub fn add_rpki(t: &mut Table, address: Option<IpAddr>, port: u32) -> (r: Result<
    SrvEvent,
    ServiceError,
>)
    requires
        old(t).wf(),
    ensures
        final(t).wf(),
        match address {
            None => r == Err::<SrvEvent, ServiceError>(ServiceError::InvalidParameters) && *final(t)
                == *old(t),
            Some(addr) => {
                let sockaddr = SocketAddr { ip: addr, port: port as u16 };
                if old(t).rtr_sessions@.contains_key(sockaddr) {
                    r == Err::<SrvEvent, ServiceError>(ServiceError::InvalidParameters) && *final(t)
                        == *old(t)
                } else {
                    &&& r == Ok::<SrvEvent, ServiceError>(
                        SrvEvent::EnableActive { proto: Proto::Rtr, sockaddr },
                    )
                    &&& *final(t) == (Table { rtr_sessions: final(t).rtr_sessions, ..*old(t) })
                    &&& final(t).rtr_sessions@.contains_key(sockaddr)
                    &&& final(t).rtr_sessions@ == old(t).rtr_sessions@.insert(
                        sockaddr,
                        final(t).rtr_sessions@[sockaddr],
                    )
                    &&& final(t).rtr_sessions@[sockaddr].is_new()
                }
            },
        },
{
    if let Some(addr) = address {
        let sockaddr = SocketAddr { ip: addr, port: port as u16 };
        if t.rtr_sessions.contains_key(&sockaddr) {
            return Err(ServiceError::InvalidParameters);
        }
        t.rtr_sessions.insert(sockaddr, RtrSession::new());
        return Ok(SrvEvent::EnableActive { proto: Proto::Rtr, sockaddr });
    }
    Err(ServiceError::InvalidParameters)
}

/// Has a monitoring station connected, at `default_port` where no port is given.
pub fn add_bmp(address: Option<IpAddr>, port: u32, default_port: u16) -> (r: Result<
    SrvEvent,
    ServiceError,
>)
    ensures
        r == match address {
            Some(addr) => Ok::<SrvEvent, ServiceError>(
                SrvEvent::EnableActive {
                    proto: Proto::Bmp,
                    sockaddr: SocketAddr {
                        ip: addr,
                        port: if port as u16 == 0 {
                            default_port
                        } else {
                            port as u16
                        },
                    },
                },
            ),
            None => Err(ServiceError::InvalidParameters),
        },
{
    if let Some(addr) = address {
        let mut port: u16 = port as u16;
        if port == 0 {
            port = default_port;
        }
        return Ok(
            SrvEvent::EnableActive {
                proto: Proto::Bmp,
                sockaddr: SocketAddr { ip: addr, port },
            },
        );
    }
    Err(ServiceError::InvalidParameters)
}

/// The number of prefixes in `m`, in 32 bits.
pub open spec fn record_count(m: Map<Seq<u8>, Seq<Roa>>) -> u32 {
    (roa::sorted_entries(m, Seq::empty()).len() % 0x1_0000_0000) as u32
}

/// The number of authorizations in `m`, in 32 bits.
pub open spec fn roa_count(m: Map<Seq<u8>, Seq<Roa>>) -> u32 {
    (show::all_roas(roa::sorted_entries(m, Seq::empty())).len() % 0x1_0000_0000) as u32
}

/// Whether the entries of `m` have a sorted listing, which `roa::sorted_entries` then is.
pub open spec fn is_listed(m: PatriciaMap<Vec<Roa>>) -> bool {
    roa::lists_prefix(
        roa::sorted_entries(roa::roa_entries(m), Seq::empty()),
        roa::roa_entries(m),
        Seq::empty(),
    )
}

fn count_roas(m: &PatriciaMap<Vec<Roa>>) -> (r: (u32, u32))
    ensures
        is_listed(*m),
        r.0 == record_count(roa::roa_entries(*m)),
        r.1 == roa_count(roa::roa_entries(*m)),
{
    let prefix: Vec<u8> = Vec::new();
    assert(prefix@ =~= Seq::<u8>::empty());
    let entries = roa::entries_under(m, &prefix);
    let ghost all = roa::shown(entries@);
    let mut records: u32 = 0;
    let mut roas: u32 = 0;
    let mut i: usize = 0;
    while i < entries.len()
        invariant
            i <= entries@.len(),
            all == roa::shown(entries@),
            records == i as int % 0x1_0000_0000,
            roas == show::all_roas(all.take(i as int)).len() % 0x1_0000_0000,
        decreases entries@.len() - i,
    {
        let n: usize = entries[i].1.len();
        proof {
            assert(all.take(i + 1).drop_last() =~= all.take(i as int));
            let c = show::all_roas(all.take(i as int)).len();
            assert((n as u32) as int == n as int % 0x1_0000_0000) by (bit_vector);
            assert((c % 0x1_0000_0000 + n as int % 0x1_0000_0000) % 0x1_0000_0000 == (c + n)
                % 0x1_0000_0000);
            assert(show::all_roas(all.take(i + 1)).len() == c + n);
        }
        records = records.wrapping_add(1);
        roas = roas.wrapping_add(n as u32);
        i += 1;
    }
    assert(all.take(i as int) =~= all);
    (records, roas)
}

/// How the sessions with caches in `s` are shown, beside the authorizations of all of them.
pub open spec fn shown_rpkis(s: Seq<(SocketAddr, RtrSession)>, t: roa::RoaTable) -> Seq<
    api::Rpki,
> {
    s.map_values(
        |e: (SocketAddr, RtrSession)|
            e.1.spec_to_api(
                e.0,
                record_count(roa::roa_entries(t.v4)),
                record_count(roa::roa_entries(t.v6)),
                roa_count(roa::roa_entries(t.v4)),
                roa_count(roa::roa_entries(t.v6)),
            ),
    )
}

/// Whether all the sessions with caches in `s` can be shown.
pub open spec fn rpkis_showable(s: Seq<(SocketAddr, RtrSession)>) -> bool {
    forall|i: int| 0 <= i < s.len() ==> (#[trigger] s[i]).1.is_showable()
}

/// Whether all sessions with caches can be shown.
pub fn can_list_rpki(t: &Table) -> (r: bool)
    ensures
        r == rpkis_showable(t.rtr_sessions.entries@),
{
    let mut i: usize = 0;
    while i < t.rtr_sessions.entries.len()
        invariant
            i <= t.rtr_sessions.entries@.len(),
            forall|j: int|
                0 <= j < i ==> (#[trigger] t.rtr_sessions.entries@[j]).1.is_showable(),
        decreases t.rtr_sessions.entries@.len() - i,
    {
        if !t.rtr_sessions.entries[i].1.can_show() {
            return false;
        }
        i += 1;
    }
    true
}

/// Shows the sessions with caches.
pub fn list_rpki(t: &Table) -> (r: Vec<api::Rpki>)
    requires
        rpkis_showable(t.rtr_sessions.entries@),
    ensures
        is_listed(t.roa.v4) && is_listed(t.roa.v6),
        r@ == shown_rpkis(t.rtr_sessions.entries@, t.roa),
{
    let (v4_record, v4_prefix) = count_roas(&t.roa.v4);
    let (v6_record, v6_prefix) = count_roas(&t.roa.v6);
    let ghost all = shown_rpkis(t.rtr_sessions.entries@, t.roa);
    let mut r: Vec<api::Rpki> = Vec::new();
    let mut i: usize = 0;
    while i < t.rtr_sessions.entries.len()
        invariant
            i <= t.rtr_sessions.entries@.len(),
            all == shown_rpkis(t.rtr_sessions.entries@, t.roa),
            rpkis_showable(t.rtr_sessions.entries@),
            v4_record == record_count(roa::roa_entries(t.roa.v4)),
            v6_record == record_count(roa::roa_entries(t.roa.v6)),
            v4_prefix == roa_count(roa::roa_entries(t.roa.v4)),
            v6_prefix == roa_count(roa::roa_entries(t.roa.v6)),
            r@ == all.take(i as int),
        decreases t.rtr_sessions.entries@.len() - i,
    {
        let e = &t.rtr_sessions.entries[i];
        r.push(e.1.to_api(&e.0, v4_record, v6_record, v4_prefix, v6_prefix));
        assert(all.take(i + 1) =~= all.take(i as int).push(all[i as int]));
        i += 1;
    }
    assert(all.take(i as int) =~= all);
    r
}

/// How the authorizations in the lists `s` are shown, each for the prefix that it is listed under.
pub open spec fn shown_table(s: Seq<(Seq<u8>, Seq<Roa>)>) -> Seq<api::Roa>
    decreases s.len(),
{
    if s.len() == 0 {
        Seq::empty()
    } else {
        shown_table(s.drop_last()) + s.last().1.map_values(
            |r: Roa| r.spec_to_api(roa::net_of_key(s.last().0)),
        )
    }
}

/// How the authorizations in `m` are shown, sorted by prefix.
pub open spec fn listed(m: PatriciaMap<Vec<Roa>>) -> Seq<api::Roa> {
    shown_table(roa::sorted_entries(roa::roa_entries(m), Seq::empty()))
}

/// Whether the table of the family `f` is asked for.
pub open spec fn asks_for(family: Option<api::Family>, f: Family) -> bool {
    match family {
        Some(a) => bgp::family_of(api::family_number(a.afi, a.safi)) == f,
        None => true,
    }
}

fn show_entry(entry: &Vec<Roa>, net: IpNet, out: &mut Vec<api::Roa>)
    ensures
        final(out)@ == old(out)@ + entry@.map_values(|r: Roa| r.spec_to_api(net)),
{
    let mut i: usize = 0;
    let ghost rows = entry@.map_values(|r: Roa| r.spec_to_api(net));
    assert(old(out)@ + rows.take(0) =~= old(out)@);
    while i < entry.len()
        invariant
            i <= entry@.len(),
            rows == entry@.map_values(|r: Roa| r.spec_to_api(net)),
            out@ == old(out)@ + rows.take(i as int),
        decreases entry@.len() - i,
    {
        out.push(entry[i].to_api(net));
        assert(old(out)@ + rows.take(i + 1) =~= (old(out)@ + rows.take(i as int)).push(
            rows[i as int],
        ));
        i += 1;
    }
    assert(rows.take(i as int) =~= rows);
}

fn show_map(m: &PatriciaMap<Vec<Roa>>, out: &mut Vec<api::Roa>)
    requires
        roa::well_keyed(roa::roa_entries(*m), 5) || roa::well_keyed(roa::roa_entries(*m), 17),
    ensures
        is_listed(*m),
        final(out)@ == old(out)@ + listed(*m),
{
    let prefix: Vec<u8> = Vec::new();
    assert(prefix@ =~= Seq::<u8>::empty());
    let entries = roa::entries_under(m, &prefix);
    let ghost all = roa::shown(entries@);
    let mut i: usize = 0;
    assert(old(out)@ + shown_table(all.take(0)) =~= old(out)@);
    while i < entries.len()
        invariant
            i <= entries@.len(),
            all == roa::shown(entries@),
            roa::lists_prefix(all, roa::roa_entries(*m), Seq::empty()),
            roa::well_keyed(roa::roa_entries(*m), 5) || roa::well_keyed(roa::roa_entries(*m), 17),
            out@ == old(out)@ + shown_table(all.take(i as int)),
        decreases entries@.len() - i,
    {
        let e = &entries[i];
        assert(all[i as int] == (e.0@, e.1@));
        show_entry(e.1, roa::to_net(&e.0), out);
        proof {
            assert(all.take(i + 1).drop_last() =~= all.take(i as int));
            assert(all.take(i + 1).last() == all[i as int]);
            assert(old(out)@ + shown_table(all.take(i + 1)) =~= (old(out)@ + shown_table(
                all.take(i as int),
            )) + e.1@.map_values(|r: Roa| r.spec_to_api(roa::net_of_key(e.0@))));
        }
        i += 1;
    }
    assert(all.take(i as int) =~= all);
}

/// How the authorizations of the families that are asked for are shown, those of IPv4 prefixes
/// first.
pub open spec fn shown_roa_table(t: roa::RoaTable, family: Option<api::Family>) -> Seq<api::Roa> {
    (if asks_for(family, Family::Ipv4Uc) {
        listed(t.v4)
    } else {
        Seq::empty()
    }) + (if asks_for(family, Family::Ipv6Uc) {
        listed(t.v6)
    } else {
        Seq::empty()
    })
}

/// Shows the authorizations of the families that are asked for.
pub fn list_rpki_table(t: &Table, family: &Option<api::Family>) -> (r: Vec<api::Roa>)
    requires
        t.wf(),
    ensures
        r@ == shown_roa_table(t.roa, *family),
        asks_for(*family, Family::Ipv4Uc) ==> is_listed(t.roa.v4),
        asks_for(*family, Family::Ipv6Uc) ==> is_listed(t.roa.v6),
{
    let (v4, v6) = match family {
        Some(a) => {
            let f = Family::from(((a.afi as u32) << 16) | (a.safi as u32));
            (f == Family::Ipv4Uc, f == Family::Ipv6Uc)
        },
        None => (true, true),
    };
    let mut r: Vec<api::Roa> = Vec::new();
    if v4 {
        show_map(&t.roa.v4, &mut r);
    }
    if v6 {
        show_map(&t.roa.v6, &mut r);
    }
    proof {
        let a = listed(t.roa.v4);
        let b = listed(t.roa.v6);
        let none = Seq::<api::Roa>::empty();
        assert(r@ =~= (if v4 {
            a
        } else {
            none
        }) + (if v6 {
            b
        } else {
            none
        }));
    }
    r
}

/// Whether no two of the authorizations in `s` say the same for the same prefix.
pub open spec fn all_differ(s: Seq<(IpNet, Roa)>) -> bool {
    forall|i: int, j: int|
        0 <= i < j < s.len() ==> (#[trigger] s[i]).0 != (#[trigger] s[j]).0 || !roa::same_roa(
            s[i].1,
            s[j].1,
        )
}

/// The authorizations for IPv6 prefixes, or those for IPv4 prefixes.
pub open spec fn of_kind(v6: bool) -> spec_fn((IpNet, Roa)) -> bool {
    |e: (IpNet, Roa)| e.0.spec_is_v6() == v6
}

/// How an authorization is shown for its prefix.
pub open spec fn shown_row() -> spec_fn((IpNet, Roa)) -> api::Roa {
    |e: (IpNet, Roa)| e.1.spec_to_api(e.0)
}

/// How the list `e` under the key `key` is shown.
spec fn entry_rows(e: (Seq<u8>, Seq<Roa>)) -> Seq<api::Roa> {
    e.1.map_values(|r: Roa| r.spec_to_api(roa::net_of_key(e.0)))
}

proof fn lemma_shown_table_push(s: Seq<(Seq<u8>, Seq<Roa>)>, e: (Seq<u8>, Seq<Roa>))
    ensures
        shown_table(s.push(e)).to_multiset() == shown_table(s).to_multiset().add(
            entry_rows(e).to_multiset(),
        ),
{
    assert(s.push(e).drop_last() =~= s);
    assert(shown_table(s.push(e)) =~= shown_table(s) + entry_rows(e));
    vstd::seq_lib::lemma_multiset_commutative(shown_table(s), entry_rows(e));
}

proof fn lemma_shown_table_with_entry(s: Seq<(Seq<u8>, Seq<Roa>)>, e: (Seq<u8>, Seq<Roa>))
    ensures
        shown_table(roa::with_entry(s, e)).to_multiset() == shown_table(s).to_multiset().add(
            entry_rows(e).to_multiset(),
        ),
    decreases s.len(),
{
    broadcast use vstd::multiset::group_multiset_axioms;

    if s.len() == 0 || roa::octets_before(s.last().0, e.0) {
        lemma_shown_table_push(s, e);
    } else {
        let t = s.drop_last();
        lemma_shown_table_with_entry(t, e);
        lemma_shown_table_push(t, s.last());
        lemma_shown_table_push(roa::with_entry(t, e), s.last());
        assert(t.push(s.last()) =~= s);
        assert(shown_table(roa::with_entry(s, e)).to_multiset() =~= shown_table(
            s,
        ).to_multiset().add(entry_rows(e).to_multiset()));
    }
}

proof fn lemma_shown_table_update(s: Seq<(Seq<u8>, Seq<Roa>)>, i: int, r: Roa)
    requires
        0 <= i < s.len(),
    ensures
        shown_table(s.update(i, (s[i].0, s[i].1.push(r)))).to_multiset() == shown_table(
            s,
        ).to_multiset().insert(r.spec_to_api(roa::net_of_key(s[i].0))),
    decreases s.len(),
{
    broadcast use vstd::multiset::group_multiset_axioms;

    let e = (s[i].0, s[i].1.push(r));
    let row = r.spec_to_api(roa::net_of_key(s[i].0));
    let w = s.update(i, e);
    let t = s.drop_last();
    assert(t.push(s.last()) =~= s);
    lemma_shown_table_push(t, s.last());
    if i == s.len() - 1 {
        assert(w =~= t.push(e));
        lemma_shown_table_push(t, e);
        assert(entry_rows(e) =~= entry_rows(s[i]).push(row));
        vstd::seq_lib::to_multiset_build(entry_rows(s[i]), row);
    } else {
        assert(t[i] == s[i]);
        lemma_shown_table_update(t, i, r);
        assert(w =~= t.update(i, e).push(s.last()));
        lemma_shown_table_push(t.update(i, e), s.last());
    }
    assert(shown_table(w).to_multiset() =~= shown_table(s).to_multiset().insert(row));
}

/// A new authorization adds one row to the listing.
proof fn lemma_row_added(m: Map<Seq<u8>, Seq<Roa>>, key: Seq<u8>, r: Roa)
    requires
        roa::lists_prefix(roa::sorted_entries(m, Seq::empty()), m, Seq::empty()),
        !roa::knows(roa::list_at(m, key), r),
    ensures
        ({
            let n = roa::with_roa(m, key, r);
            &&& roa::lists_prefix(roa::sorted_entries(n, Seq::empty()), n, Seq::empty())
            &&& shown_table(roa::sorted_entries(n, Seq::empty())).to_multiset() == shown_table(
                roa::sorted_entries(m, Seq::empty()),
            ).to_multiset().insert(r.spec_to_api(roa::net_of_key(key)))
        }),
{
    broadcast use vstd::multiset::group_multiset_axioms;

    let none = Seq::<u8>::empty();
    let s = roa::sorted_entries(m, none);
    let n = roa::with_roa(m, key, r);
    let row = r.spec_to_api(roa::net_of_key(key));
    assert(none.is_prefix_of(key));
    if m.contains_key(key) {
        let i = choose|i: int| 0 <= i < s.len() && (#[trigger] s[i]).0 == key;
        assert(s[i].1 == m[key]);
        let w = s.update(i, (key, m[key].push(r)));
        roa::lemma_listing_update(s, m, none, i, m[key].push(r));
        roa::lemma_sorted_entries(w, n, none);
        lemma_shown_table_update(s, i, r);
    } else {
        let e = (key, Seq::<Roa>::empty().push(r));
        roa::lemma_listing_with_entry(s, m, none, key, e.1);
        roa::lemma_sorted_entries(roa::with_entry(s, e), n, none);
        lemma_shown_table_with_entry(s, e);
        let no_rows = Seq::<api::Roa>::empty();
        assert(entry_rows(e) =~= no_rows.push(row));
        vstd::seq_lib::to_multiset_build(no_rows, row);
        assert(no_rows.to_multiset() =~= vstd::multiset::Multiset::empty()) by {
            vstd::seq_lib::to_multiset_len(no_rows);
        }
        assert(shown_table(roa::with_entry(s, e)).to_multiset() =~= shown_table(
            s,
        ).to_multiset().insert(row));
    }
}

proof fn lemma_listed_rows(s: Seq<(IpNet, Roa)>, v6: bool)
    requires
        all_differ(s),
    ensures
        ({
            let m = cache::with_all(roa::no_roas(), s, v6);
            &&& roa::lists_prefix(roa::sorted_entries(m, Seq::empty()), m, Seq::empty())
            &&& shown_table(roa::sorted_entries(m, Seq::empty())).to_multiset() == s.filter(
                of_kind(v6),
            ).map_values(shown_row()).to_multiset()
        }),
    decreases s.len(),
{
    let none = Seq::<u8>::empty();
    let m = cache::with_all(roa::no_roas(), s, v6);
    if s.len() == 0 {
        let l = Seq::<(Seq<u8>, Seq<Roa>)>::empty();
        assert(roa::lists_prefix(l, m, none));
        roa::lemma_sorted_entries(l, m, none);
        lists::lemma_filter_empty(s, of_kind(v6));
        assert(s.filter(of_kind(v6)).map_values(shown_row()) =~= shown_table(l));
    } else {
        let t = s.drop_last();
        let x = s.last();
        assert(s =~= t.push(x));
        assert forall|i: int, j: int| 0 <= i < j < t.len() implies (#[trigger] t[i]).0 != (
        #[trigger] t[j]).0 || !roa::same_roa(t[i].1, t[j].1) by {
            assert(t[i] == s[i] && t[j] == s[j]);
        }
        lemma_listed_rows(t, v6);
        lists::lemma_filter_push(t, of_kind(v6), x);
        if x.0.spec_is_v6() == v6 {
            let before = cache::with_all(roa::no_roas(), t, v6);
            let key = roa::roa_key(x.0);
            cache::law_with_all_knows(roa::no_roas(), t, v6, key, x.1);
            roa::law_key_stands_for_prefix(x.0);
            if cache::announces(t, key, x.1, v6) {
                let i = choose|i: int|
                    0 <= i < t.len() && roa::roa_key((#[trigger] t[i]).0) == key
                        && t[i].0.spec_is_v6() == v6 && roa::same_roa(t[i].1, x.1);
                roa::law_key_stands_for_prefix(t[i].0);
                assert(s[i] == t[i] && s[s.len() - 1] == x);
            }
            lemma_row_added(before, key, x.1);
            let rows = t.filter(of_kind(v6)).map_values(shown_row());
            assert(s.filter(of_kind(v6)).map_values(shown_row()) =~= rows.push(shown_row()(x)));
            vstd::seq_lib::to_multiset_build(rows, shown_row()(x));
        }
    }
}

/// The rows of authorizations that all differ are all different.
proof fn lemma_rows_differ(s: Seq<(IpNet, Roa)>, v6: bool)
    requires
        all_differ(s),
    ensures
        s.filter(of_kind(v6)).map_values(shown_row()).no_duplicates(),
    decreases s.len(),
{
    if s.len() == 0 {
        lists::lemma_filter_empty(s, of_kind(v6));
    } else {
        let t = s.drop_last();
        let x = s.last();
        assert(s =~= t.push(x));
        assert forall|i: int, j: int| 0 <= i < j < t.len() implies (#[trigger] t[i]).0 != (
        #[trigger] t[j]).0 || !roa::same_roa(t[i].1, t[j].1) by {
            assert(t[i] == s[i] && t[j] == s[j]);
        }
        lemma_rows_differ(t, v6);
        lists::lemma_filter_push(t, of_kind(v6), x);
        let f = t.filter(of_kind(v6));
        let rows = f.map_values(shown_row());
        if of_kind(v6)(x) {
            assert(s.filter(of_kind(v6)).map_values(shown_row()) =~= rows.push(shown_row()(x)));
            assert forall|i: int| 0 <= i < rows.len() implies rows[i] != shown_row()(x) by {
                lists::lemma_filter_contains(t, of_kind(v6), f[i]);
                assert(f.contains(f[i]));
                let l = choose|l: int| 0 <= l < t.len() && t[l] == f[i];
                assert(s[l] == f[i] && s[s.len() - 1] == x);
            }
        }
    }
}

/// A table that authorizations have been put into, all of them different, lists each of them
/// exactly once, for its prefix, and nothing else: those of IPv4 prefixes first, then those of
/// IPv6 prefixes, or only the ones of the family that is asked for.
pub proof fn law_listed_once(
    t: roa::RoaTable,
    s: Seq<(IpNet, Roa)>,
    family: Option<api::Family>,
)
    requires
        all_differ(s),
        roa::roa_entries(t.v4) == cache::with_all(roa::no_roas(), s, false),
        roa::roa_entries(t.v6) == cache::with_all(roa::no_roas(), s, true),
    ensures
        is_listed(t.v4) && is_listed(t.v6),
        listed(t.v4).to_multiset() == s.filter(of_kind(false)).map_values(
            shown_row(),
        ).to_multiset(),
        listed(t.v6).to_multiset() == s.filter(of_kind(true)).map_values(shown_row()).to_multiset(),
        listed(t.v4).no_duplicates() && listed(t.v6).no_duplicates(),
        shown_roa_table(t, None) == listed(t.v4) + listed(t.v6),
        asks_for(family, Family::Ipv4Uc) && family is Some ==> shown_roa_table(t, family) == listed(
            t.v4,
        ),
        asks_for(family, Family::Ipv6Uc) && family is Some ==> shown_roa_table(t, family) == listed(
            t.v6,
        ),
{
    lemma_listed_rows(s, false);
    lemma_listed_rows(s, true);
    lemma_rows_differ(s, false);
    lemma_rows_differ(s, true);
    s.filter(of_kind(false)).map_values(shown_row()).lemma_multiset_has_no_duplicates();
    s.filter(of_kind(true)).map_values(shown_row()).lemma_multiset_has_no_duplicates();
    listed(t.v4).lemma_multiset_has_no_duplicates_conv();
    listed(t.v6).lemma_multiset_has_no_duplicates_conv();
    assert(shown_roa_table(t, None) =~= listed(t.v4) + listed(t.v6));
    if let Some(_) = family {
        if asks_for(family, Family::Ipv4Uc) {
            assert(shown_roa_table(t, family) =~= listed(t.v4));
        }
        if asks_for(family, Family::Ipv6Uc) {
            assert(shown_roa_table(t, family) =~= listed(t.v6));
        }
    }
}

/// A speaker is started exactly when it has not been, and when the request carries an AS number
/// that is not zero and a router id that could be read.
pub proof fn law_when_it_starts(g: Global, request: Option<StartRequest>)
    ensures
        start_error(g, request) is None <==> g.as_number == 0 && request is Some
            && request->0.as_number != 0 && request->0.router_id is Some,
        request is None ==> start_error(g, request) == Some(ServiceError::EmptyConfiguration),
        request is Some && g.as_number != 0 ==> start_error(g, request) == Some(
            ServiceError::AlreadyStarted,
        ),
        request is Some && g.as_number == 0 && request->0.as_number == 0 ==> start_error(g, request)
            == Some(ServiceError::InvalidAsNumber),
        request is Some && g.as_number == 0 && request->0.as_number != 0 && request->0.router_id
            is None ==> start_error(g, request) == Some(ServiceError::InvalidRouterId),
{
}

/// The own AS number towards a peer is the one that is configured for it, and that of the speaker
/// where none is.
pub proof fn law_own_as(g: Global, p: api::PeerView)
    ensures
        p.conf is Some && p.conf->0.local_as != 0 ==> own_as(g, p) == p.conf->0.local_as,
        p.conf is None || p.conf->0.local_as == 0 ==> own_as(g, p) == g.as_number,
{
}

/// A peer is configured with what the request carries. What it does not carry has its usual value.
pub proof fn law_configured_peer(p: Peer, addr: IpAddr, as_number: u32, conf: api::PeerView, i: int)
    requires
        is_configured(p, addr, as_number, conf),
    ensures
        p.address == addr,
        p.local_as == as_number,
        p.remote_as == conf.remote_as(),
        p.remote_port == conf.remote_port(),
        p.passive == conf.passive_mode(),
        p.local_port == 0,
        p.router_id == 0,
        !p.delete_on_disconnected,
        conf.times().hold_time != 0 ==> p.hold_time == conf.times().hold_time,
        conf.times().hold_time == 0 ==> p.hold_time == 180,
        conf.times().connect_retry != 0 ==> p.connect_retry_time == conf.times().connect_retry,
        conf.times().connect_retry == 0 ==> p.connect_retry_time == 3,
        p.state == bgp::State::Idle,
        p.uptime.since_epoch() == 0,
        p.downtime.since_epoch() == 0,
        p.counter_tx.total == 0,
        p.counter_rx.total == 0,
        p.accepted@.dom() == Set::<Family>::empty(),
        p.remote_cap@.len() == 0,
        p.local_cap@.len() == 2 + conf.families().len(),
        p.local_cap@[0]@ is RouteRefresh,
        p.local_cap@[1]@ matches bgp::CapabilityView::FourOctetAsNumber { as_number: n } && n
            == as_number,
        0 <= i < conf.families().len() ==> (p.local_cap@[2 + i]@ matches bgp::CapabilityView::MultiProtocol {
            family,
        } && family == conf.families()[i]),
{
    let all = bgp::cap_views(p.local_cap@);
    assert(all.len() == 2 + conf.families().len());
    assert(all[0] == p.local_cap@[0]@);
    assert(all[1] == p.local_cap@[1]@);
    if 0 <= i < conf.families().len() {
        assert(all[2 + i] == p.local_cap@[2 + i]@);
    }
}

/// The address of a peer is the one that its configuration carries, if it could be read.
pub proof fn law_configured_address(p: api::PeerView)
    ensures
        configured_address(None) is None,
        p.conf matches Some(c) ==> configured_address(Some(p)) == c.neighbor_address,
        p.conf is None ==> configured_address(Some(p)) is None,
{
}

/// The peer that is asked for, or each where none is named, gets the numbers of accepted routes
/// that its session has. Nothing else of it changes, and nothing of the others.
pub proof fn law_refreshed(
    before: (IpAddr, Peer),
    after: (IpAddr, Peer),
    t: Table,
    address: Option<IpAddr>,
    f: Family,
)
    requires
        refreshed(before, after, t, address),
    ensures
        after.0 == before.0,
        after.1.address == before.1.address,
        after.1.state == before.1.state,
        after.1.remote_as == before.1.remote_as,
        after.1.counter_rx == before.1.counter_rx,
        after.1.counter_tx == before.1.counter_tx,
        (address is None || address == Some(before.0)) && t.bgp_sessions@.contains_key(before.0)
            ==> after.1.accepted@ == t.bgp_sessions@[before.0].accepted@,
        address is Some && address != Some(before.0) || !t.bgp_sessions@.contains_key(before.0)
            ==> after.1 == before.1,
        asked_for(address)(before) <==> address is None || address->0 == before.0,
{
}

/// Each peer is shown by itself, in the order they have.
pub proof fn law_shown_peers(s: Seq<(IpAddr, Peer)>, i: int)
    ensures
        shown_peers(s).len() == s.len(),
        0 <= i < s.len() ==> shown_peers(s)[i] == s[i].1.spec_to_api(),
{
}

/// A prefix is added to a group exactly when it could be read, the group is known, and it is not
/// there yet.
pub proof fn law_when_a_prefix_is_added(g: Global, request: Option<DynamicNeighbor>)
    ensures
        ({
            let known = request is Some && g.peer_group@.contains_key(request->0.peer_group@);
            let there = exists|i: int|
                0 <= i < g.peer_group@[request->0.peer_group@].dynamic_peers@.len() && (
                #[trigger] g.peer_group@[request->0.peer_group@].dynamic_peers@[i]).prefix
                    == request->0.prefix->0;
            let e = dynamic_error(g, request);
            &&& request is None ==> e == Some(ServiceError::EmptyNeighbor)
            &&& request is Some && request->0.prefix is None ==> e == Some(
                ServiceError::InvalidPrefix,
            )
            &&& request is Some && request->0.prefix is Some && !known ==> e == Some(
                ServiceError::PeerGroupUnknown,
            )
            &&& request is Some && request->0.prefix is Some && known && there ==> e == Some(
                ServiceError::PrefixExists,
            )
            &&& request is Some && request->0.prefix is Some && known && !there ==> e is None
        }),
{
    if request is Some && request->0.prefix is Some {
        let s = g.peer_group@[request->0.peer_group@].dynamic_peers@;
        let d = DynamicPeer { prefix: request->0.prefix->0 };
        if s.contains(d) {
            let i = choose|i: int| 0 <= i < s.len() && s[i] == d;
            assert(s[i].prefix == d.prefix);
        }
        if exists|i: int| 0 <= i < s.len() && (#[trigger] s[i]).prefix == d.prefix {
            let i = choose|i: int| 0 <= i < s.len() && (#[trigger] s[i]).prefix == d.prefix;
            assert(s[i] == d);
        }
    }
}

/// A request speaks of a route exactly when it carries a family and a destination that could be
/// read. It is turned down for the first that it lacks.
pub proof fn law_target(path: Option<PathRequest>)
    ensures
        path is None ==> target_error(path) == Some(ServiceError::EmptyPath),
        path matches Some(p) ==> {
            &&& p.family is None ==> target_error(path) == Some(ServiceError::EmptyFamily)
            &&& p.family is Some && p.nlri is None ==> target_error(path) == Some(
                ServiceError::EmptyNlri,
            )
            &&& p.family is Some && p.nlri is Some && p.nlri->0.spec_to_proto() is None
                ==> target_error(path) == Some(ServiceError::UnknownNlri)
            &&& p.family is Some && p.nlri is Some && p.nlri->0.spec_to_proto() is Some ==> {
                &&& target_error(path) is None
                &&& target(p).0 == p.family->0.spec_to_proto()
                &&& Some(target(p).1) == p.nlri->0.spec_to_proto()
            }
        },
{
}

/// A route that the speaker itself is given stands in the table with the speaker as its source,
/// and the next hop and the attributes that were read. It takes the place of the one that the
/// speaker had there. The routes of the others stay, and so does everything else.
pub proof fn law_speaker_announces(
    before: Table,
    after: Table,
    out: Seq<(IpAddr, PeerEvent)>,
    p: PathRequest,
    s: Seq<ReadAttributeView>,
    f: Family,
    n: Nlri,
)
    requires
        before.wf(),
        speaker_announces(before, after, out, p, s),
    ensures
        ({
            let was = table::routes_at(before.routes(), f, n);
            let is = table::routes_at(after.routes(), f, n);
            let local = before.local_source;
            &&& (f, n) != target(p) ==> is == was
            &&& (f, n) == target(p) ==> exists|k: int|
                {
                    &&& 0 <= k < is.len()
                    &&& (#[trigger] is[k]).source == local
                    &&& is[k].nexthop == native::native_nexthop(s)
                    &&& bgp::attr_views(is[k].attrs.entry@) == s.filter_map(
                        native::native_attribute(),
                    )
                    &&& is.remove(k) == was.filter(rib::not_by(local.address))
                }
            &&& after.local_source == before.local_source
            &&& after.disable_best_path_selection == before.disable_best_path_selection
            &&& after.roa == before.roa
            &&& after.bgp_sessions == before.bgp_sessions
            &&& after.bmp_sessions == before.bmp_sessions
            &&& after.rtr_sessions == before.rtr_sessions
        }),
{
    let (attrs, now) = choose|attrs: Arc<PathAttr>, now: Timestamp|
        bgp::attr_views(attrs.entry@) == s.filter_map(native::native_attribute()) && announces(
            before,
            after,
            out,
            target(p).0,
            target(p).1,
            #[trigger] Path::spec_at(
                before.local_source,
                native::native_nexthop(s),
                attrs,
                now,
            ),
        );
    let new = Path::spec_at(before.local_source, native::native_nexthop(s), attrs, now);
    let unsorted = before.disable_best_path_selection;
    let was = table::routes_at(before.routes(), f, n);
    let is = table::routes_at(after.routes(), f, n);
    table::law_insert_touches_one(
        before.routes(),
        target(p).0,
        target(p).1,
        new,
        unsorted,
        f,
        n,
    );
    table::law_new_route_takes_its_place(before, target(p).0, target(p).1, new);
    if (f, n) == target(p) {
        let rest = was.filter(rib::not_by(before.local_source.address));
        let k = choose|k: int| 0 <= k <= rest.len() && is == #[trigger] rest.insert(k, new);
        assert(is[k] == new);
        assert(is.remove(k) =~= rest);
    }
}

/// What is passed on of a route that the speaker itself is given goes out as from the speaker: an
/// update with the next hop that was read, if best routes are looked for, and nothing otherwise.
pub proof fn law_speaker_passes_on(
    before: Table,
    after: Table,
    out: Seq<(IpAddr, PeerEvent)>,
    p: PathRequest,
    s: Seq<ReadAttributeView>,
)
    requires
        before.wf(),
        speaker_announces(before, after, out, p, s),
    ensures
        ({
            let was = table::routes_at(before.routes(), target(p).0, target(p).1);
            exists|u: Option<TableUpdate>|
                {
                    &&& out == #[trigger] before.deliveries(*before.local_source, target(p).0, u)
                    &&& before.disable_best_path_selection ==> u is None
                    &&& !before.disable_best_path_selection && was.len() == 0 ==> u is Some
                    &&& u matches Some(x) ==> x is NewBest && x->NewBest_0 == target(p).1
                        && x->NewBest_1 == native::native_nexthop(s)
                }
        }),
{
    let (attrs, now) = choose|attrs: Arc<PathAttr>, now: Timestamp|
        bgp::attr_views(attrs.entry@) == s.filter_map(native::native_attribute()) && announces(
            before,
            after,
            out,
            target(p).0,
            target(p).1,
            #[trigger] Path::spec_at(
                before.local_source,
                native::native_nexthop(s),
                attrs,
                now,
            ),
        );
    let new = Path::spec_at(before.local_source, native::native_nexthop(s), attrs, now);
    table::law_when_a_new_route_is_told(before, target(p).0, target(p).1, new);
    let u = before.insert_result(target(p).0, target(p).1, new).0;
    assert(out == before.deliveries(*before.local_source, target(p).0, u));
}

/// Routes that the speaker is given are announced one after the other, each in the table that the
/// one before it has left.
pub proof fn law_announced_in_turn(
    before: Table,
    after: Table,
    out: Seq<(IpAddr, PeerEvent)>,
    v: Seq<(PathRequest, Seq<ReadAttributeView>)>,
    x: (PathRequest, Seq<ReadAttributeView>),
)
    ensures
        all_announced(before, after, out, Seq::empty()) <==> after == before && out.len() == 0,
        all_announced(before, after, out, v.push(x)) <==> exists|
            mid: Table,
            first: Seq<(IpAddr, PeerEvent)>,
            last: Seq<(IpAddr, PeerEvent)>,
        |
            {
                &&& all_announced(before, mid, first, v)
                &&& #[trigger] speaker_announces(mid, after, last, x.0, x.1)
                &&& out == #[trigger] first.add(last)
            },
{
    let w = v.push(x);
    assert(w.drop_last() =~= v);
    assert(w.last() == x);
    if out.len() == 0 {
        assert(out =~= Seq::<(IpAddr, PeerEvent)>::empty());
    }
    if all_announced(before, after, out, w) {
        let (mid, first, last) = choose|
            mid: Table,
            first: Seq<(IpAddr, PeerEvent)>,
            last: Seq<(IpAddr, PeerEvent)>,
        |
            all_announced(before, mid, first, w.drop_last()) && out == #[trigger] first.add(last)
                && #[trigger] speaker_announces(mid, after, last, w.last().0, w.last().1);
        assert(speaker_announces(mid, after, last, x.0, x.1));
        assert(out == first.add(last));
    }
    assert forall|
        mid: Table,
        first: Seq<(IpAddr, PeerEvent)>,
        last: Seq<(IpAddr, PeerEvent)>,
    |
        all_announced(before, mid, first, v) && #[trigger] speaker_announces(
            mid,
            after,
            last,
            x.0,
            x.1,
        ) && out == #[trigger] first.add(last) implies all_announced(before, after, out, w) by {
        assert(out == first.add(last));
        assert(speaker_announces(mid, after, last, w.last().0, w.last().1));
        assert(all_announced(before, mid, first, w.drop_last()));
    }
}

/// The requests before the first bad one can all be carried out, and that one cannot.
pub proof fn law_first_bad(v: Seq<(PathRequest, Seq<ReadAttributeView>)>)
    ensures
        0 <= first_bad(v) <= v.len(),
        forall|i: int|
            0 <= i < first_bad(v) ==> target_error(Some((#[trigger] v[i]).0)) is None,
        first_bad(v) < v.len() ==> target_error(Some(v[first_bad(v)].0)) is Some,
    decreases v.len(),
{
    if v.len() > 0 && target_error(Some(v[0].0)) is None {
        let t = v.drop_first();
        law_first_bad(t);
        assert forall|i: int| 0 <= i < first_bad(v) implies target_error(
            Some((#[trigger] v[i]).0),
        ) is None by {
            if i > 0 {
                assert(t[i - 1] == v[i]);
            }
        }
    }
}

/// A request asks about the family that it names, and about IPv4 unicast where it names none.
pub proof fn law_asked_family(f: api::Family)
    ensures
        asked_family(None) == Family::Ipv4Uc,
        asked_family(Some(f)) == f.spec_to_proto(),
{
}

/// The routes of a table are counted destination by destination.
pub proof fn law_count_paths(
    s: Seq<(Nlri, Seq<Path>)>,
    t: Seq<(Nlri, Seq<Path>)>,
    x: (Nlri, Seq<Path>),
)
    ensures
        count_paths(Seq::empty()) == 0,
        count_paths(seq![x]) == x.1.len(),
        count_paths(s + t) == count_paths(s) + count_paths(t),
    decreases t.len(),
{
    assert(seq![x].drop_last() =~= Seq::empty());
    if t.len() == 0 {
        assert(s + t =~= s);
    } else {
        assert((s + t).drop_last() =~= s + t.drop_last());
        law_count_paths(s, t.drop_last(), x);
    }
}

/// As many records are shown as there are prefixes with authorizations.
pub proof fn law_record_count(m: Map<Seq<u8>, Seq<Roa>>)
    requires
        m.dom().finite(),
        m.dom().len() <= u32::MAX,
    ensures
        record_count(m) == m.dom().len(),
{
    let s = roa::sorted_entries(m, Seq::empty());
    let keys = s.map_values(|e: (Seq<u8>, Seq<Roa>)| e.0);
    roa::law_sorted_entries(m, Seq::empty());
    assert forall|i: int, j: int| 0 <= i < keys.len() && 0 <= j < keys.len() && i != j implies keys[i]
        != keys[j] by {
        assert(keys[i] == s[i].0 && keys[j] == s[j].0);
        roa::law_octets_before(Seq::empty(), s[i].0, s[i].0);
        if i < j {
            assert(roa::octets_before(s[i].0, s[j].0));
        } else {
            assert(roa::octets_before(s[j].0, s[i].0));
        }
    }
    assert(keys.no_duplicates());
    keys.unique_seq_to_set();
    assert(keys.to_set() =~= m.dom()) by {
        assert forall|k: Seq<u8>| keys.to_set().contains(k) == m.dom().contains(k) by {
            if m.contains_key(k) {
                assert(Seq::<u8>::empty().is_prefix_of(k));
                let i = choose|i: int| 0 <= i < s.len() && (#[trigger] s[i]).0 == k;
                assert(keys[i] == k);
            }
            if keys.contains(k) {
                let i = choose|i: int| 0 <= i < keys.len() && keys[i] == k;
                assert(s[i].0 == k);
                assert(m.contains_key(s[i].0));
            }
        }
    }
    assert(s.len() == keys.len());
}

/// As many authorizations are shown as the lists of all prefixes hold together.
pub proof fn law_roa_count(
    m: Map<Seq<u8>, Seq<Roa>>,
    s: Seq<(Seq<u8>, Seq<Roa>)>,
    e: (Seq<u8>, Seq<Roa>),
)
    ensures
        show::all_roas(s.push(e)).len() == show::all_roas(s).len() + e.1.len(),
        show::all_roas(roa::sorted_entries(m, Seq::empty())).len() <= u32::MAX ==> roa_count(m)
            == show::all_roas(roa::sorted_entries(m, Seq::empty())).len(),
{
    assert(s.push(e).drop_last() =~= s);
}

/// Each cache is shown by itself, with the numbers of records and of authorizations of both kinds
/// of prefixes.
pub proof fn law_shown_caches(s: Seq<(SocketAddr, RtrSession)>, t: roa::RoaTable, i: int)
    ensures
        shown_rpkis(s, t).len() == s.len(),
        0 <= i < s.len() ==> {
            let c = shown_rpkis(s, t)[i];
            &&& c.conf.address == s[i].0.ip
            &&& c.state.up == (s[i].1.local_address is Some)
            &&& c.state.record_ipv4 == record_count(roa::roa_entries(t.v4))
            &&& c.state.record_ipv6 == record_count(roa::roa_entries(t.v6))
            &&& c.state.prefix_ipv4 == roa_count(roa::roa_entries(t.v4))
            &&& c.state.prefix_ipv6 == roa_count(roa::roa_entries(t.v6))
        },
{
}

/// The table of a family is asked for by its numbers, or by naming none.
pub proof fn law_asks_for(a: api::Family)
    requires
        0 <= a.afi <= 0xffff,
        0 <= a.safi <= 0xffff,
    ensures
        asks_for(None, Family::Ipv4Uc) && asks_for(None, Family::Ipv6Uc),
        asks_for(Some(a), Family::Ipv4Uc) <==> a.afi == 1 && a.safi == 1,
        asks_for(Some(a), Family::Ipv6Uc) <==> a.afi == 2 && a.safi == 1,
{
    let afi = a.afi as u32;
    let safi = a.safi as u32;
    assert(((afi << 16) | safi) == 0x0001_0001 <==> afi == 1 && safi == 1) by (bit_vector)
        requires
            afi <= 0xffff,
            safi <= 0xffff,
    ;
    assert(((afi << 16) | safi) == 0x0002_0001 <==> afi == 2 && safi == 1) by (bit_vector)
        requires
            afi <= 0xffff,
            safi <= 0xffff,
    ;
    bgp::law_families(IpAddr::V4(0), (afi << 16) | safi);
}

} // verus!
