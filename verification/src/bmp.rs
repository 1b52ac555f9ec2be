//! What monitoring stations are told.
use vstd::prelude::*;
use crate::addr::{IpAddr, Ipv4Addr};
use crate::bgp;
use crate::bgp::{Capability, CapabilityView, UpdatePdu, UpdatePduView};
use crate::time::Timestamp;

verus! {

/// The name that the speaker gives of itself.
pub const SYS_NAME: &'static str = "RusytBGP";

/// The description that the speaker gives of itself.
pub const SYS_DESCR: &'static str = "master";

/// The peer that a message is about.
#[derive(Clone, Copy, PartialEq, Eq, Structural, Debug)]
pub struct PeerHeader {
    pub address: IpAddr,
    pub as_number: u32,
    pub router_id: Ipv4Addr,
    pub timestamp: Timestamp,
}

/// What an OPEN message is to carry.
#[derive(PartialEq, Eq, Debug)]
pub struct OpenPdu {
    pub router_id: Ipv4Addr,
    pub capabilities: Vec<Capability>,
}

/// What an `OpenPdu` holds.
#[verifier::ext_equal]
pub struct OpenPduView {
    pub router_id: Ipv4Addr,
    pub capabilities: Seq<CapabilityView>,
}

impl View for OpenPdu {
    type V = OpenPduView;

    open spec fn view(&self) -> OpenPduView {
        OpenPduView {
            router_id: self.router_id,
            capabilities: bgp::cap_views(self.capabilities@),
        }
    }
}

/// The notification that a session with a peer is up.
#[derive(PartialEq, Eq, Debug)]
pub struct PeerUpNotification {
    pub peer_header: PeerHeader,
    pub local_address: IpAddr,
    pub local_port: u16,
    pub remote_port: u16,
    pub sent_open: OpenPdu,
    pub received_open: OpenPdu,
}

/// What a `PeerUpNotification` holds.
#[verifier::ext_equal]
pub struct PeerUpNotificationView {
    pub peer_header: PeerHeader,
    pub local_address: IpAddr,
    pub local_port: u16,
    pub remote_port: u16,
    pub sent_open: OpenPduView,
    pub received_open: OpenPduView,
}

impl View for PeerUpNotification {
    type V = PeerUpNotificationView;

    open spec fn view(&self) -> PeerUpNotificationView {
        PeerUpNotificationView {
            peer_header: self.peer_header,
            local_address: self.local_address,
            local_port: self.local_port,
            remote_port: self.remote_port,
            sent_open: self.sent_open@,
            received_open: self.received_open@,
        }
    }
}

/// The notification that a session with a peer is down.
#[derive(PartialEq, Eq, Debug)]
pub struct PeerDownNotification {
    pub peer_header: PeerHeader,
    pub reason: u8,
    pub payload: Vec<u8>,
    pub data: Vec<u8>,
}

/// What a `PeerDownNotification` holds.
#[verifier::ext_equal]
pub struct PeerDownNotificationView {
    pub peer_header: PeerHeader,
    pub reason: u8,
    pub payload: Seq<u8>,
    pub data: Seq<u8>,
}

impl View for PeerDownNotification {
    type V = PeerDownNotificationView;

    open spec fn view(&self) -> PeerDownNotificationView {
        PeerDownNotificationView {
            peer_header: self.peer_header,
            reason: self.reason,
            payload: self.payload@,
            data: self.data@,
        }
    }
}

/// A route that a peer has announced or withdrawn.
#[derive(PartialEq, Eq, Debug)]
pub struct RouteMonitoring {
    pub peer_header: PeerHeader,
    pub payload: UpdatePdu,
}

/// What a `RouteMonitoring` holds.
#[verifier::ext_equal]
pub struct RouteMonitoringView {
    pub peer_header: PeerHeader,
    pub payload: UpdatePduView,
}

impl View for RouteMonitoring {
    type V = RouteMonitoringView;

    open spec fn view(&self) -> RouteMonitoringView {
        RouteMonitoringView { peer_header: self.peer_header, payload: self.payload@ }
    }
}

/// A message to a monitoring station.
#[derive(PartialEq, Eq, Debug)]
pub enum Message {
    /// The first message, with the name and the description of the speaker.
    Initiation,
    PeerUpNotification(PeerUpNotification),
    PeerDownNotification(PeerDownNotification),
    RouteMonitoring(RouteMonitoring),
}

/// What a `Message` holds.
#[verifier::ext_equal]
pub enum MessageView {
    Initiation,
    PeerUpNotification(PeerUpNotificationView),
    PeerDownNotification(PeerDownNotificationView),
    RouteMonitoring(RouteMonitoringView),
}

impl View for Message {
    type V = MessageView;

    open spec fn view(&self) -> MessageView {
        match *self {
            Message::Initiation => MessageView::Initiation,
            Message::PeerUpNotification(m) => MessageView::PeerUpNotification(m@),
            Message::PeerDownNotification(m) => MessageView::PeerDownNotification(m@),
            Message::RouteMonitoring(m) => MessageView::RouteMonitoring(m@),
        }
    }
}

/// What the messages in `v` hold.
pub open spec fn message_views(v: Seq<Message>) -> Seq<MessageView> {
    v.map_values(|m: Message| m@)
}

} // verus!
