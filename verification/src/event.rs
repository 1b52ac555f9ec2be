//! What the parts of the daemon tell each other.
use std::sync::Arc;
use vstd::prelude::*;
use crate::addr::{IpAddr, SocketAddr};
use crate::bgp::{Family, Nlri};
use crate::path::{PathAttr, Source};

verus! {

/// A protocol that the daemon speaks.
#[derive(Clone, Copy, PartialEq, Eq, Structural, Debug)]
pub enum Proto {
    Bgp,
    Bmp,
    Rtr,
}

/// A session that has ended.
pub enum DisconnectedProto {
    Bgp(Arc<Source>),
    Bmp(SocketAddr),
    Rtr(SocketAddr),
}

/// Something that the server has to see to.
pub enum SrvEvent {
    /// A connection is to be opened.
    EnableActive { proto: Proto, sockaddr: SocketAddr },
    Disconnected(DisconnectedProto),
    /// A peer is to be forgotten.
    Deconfigured(IpAddr),
}

/// A route that a source announces, or, without attributes, withdraws.
pub struct TableChange {
    pub family: Family,
    pub net: Nlri,
    pub source: Arc<Source>,
    pub nexthop: IpAddr,
    pub attrs: Arc<PathAttr>,
}

} // verus!
