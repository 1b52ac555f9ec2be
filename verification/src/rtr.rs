//! Sessions with RPKI caches, which announce route origin authorizations.
use vstd::prelude::*;
use crate::addr::{IpNet, SocketAddr};
use crate::counter::Counter;
use crate::time::Timestamp;

verus! {

pub const SERIAL_NOTIFY: u8 = 0;

pub const SERIAL_QUERY: u8 = 1;

pub const RESET_QUERY: u8 = 2;

pub const CACHE_RESPONSE: u8 = 3;

pub const IPV4_PREFIX: u8 = 4;

pub const IPV6_PREFIX: u8 = 6;

pub const END_OF_DATA: u8 = 7;

pub const CACHE_RESET: u8 = 8;

pub const ERROR_REPORT: u8 = 10;

/// The announcement of an authorization.
#[derive(Clone, Copy, PartialEq, Eq, Structural, Debug)]
pub struct Prefix {
    pub net: IpNet,
    pub max_length: u8,
    pub as_number: u32,
}

/// A message between a router and a cache.
#[derive(Clone, Copy, PartialEq, Eq, Structural, Debug)]
pub enum Message {
    SerialNotify,
    SerialQuery,
    ResetQuery,
    CacheResponse,
    Ipv4Prefix(Prefix),
    Ipv6Prefix(Prefix),
    EndOfData,
    CacheReset,
    ErrorReport,
    /// A message of another type, by its code.
    Other(u8),
}

impl Message {
    /// The type code of the message.
    pub open spec fn code(self) -> u8 {
        match self {
            Message::SerialNotify => SERIAL_NOTIFY,
            Message::SerialQuery => SERIAL_QUERY,
            Message::ResetQuery => RESET_QUERY,
            Message::CacheResponse => CACHE_RESPONSE,
            Message::Ipv4Prefix(_) => IPV4_PREFIX,
            Message::Ipv6Prefix(_) => IPV6_PREFIX,
            Message::EndOfData => END_OF_DATA,
            Message::CacheReset => CACHE_RESET,
            Message::ErrorReport => ERROR_REPORT,
            Message::Other(c) => c,
        }
    }

    /// The type code of the message.
    pub fn message_type(&self) -> (r: u8)
        ensures
            r == self.code(),
    {
        match self {
            Message::SerialNotify => SERIAL_NOTIFY,
            Message::SerialQuery => SERIAL_QUERY,
            Message::ResetQuery => RESET_QUERY,
            Message::CacheResponse => CACHE_RESPONSE,
            Message::Ipv4Prefix(_) => IPV4_PREFIX,
            Message::Ipv6Prefix(_) => IPV6_PREFIX,
            Message::EndOfData => END_OF_DATA,
            Message::CacheReset => CACHE_RESET,
            Message::ErrorReport => ERROR_REPORT,
            Message::Other(c) => *c,
        }
    }
}

/// A session with a cache.
pub struct RtrSession {
    /// The near end of the connection, while there is one.
    pub local_address: Option<SocketAddr>,
    pub uptime: Timestamp,
    pub downtime: Timestamp,
    pub serial_number: u32,
    /// How many messages of each type have come in.
    pub rx_counter: Counter,
}

impl Clone for RtrSession {
    fn clone(&self) -> (r: Self)
        ensures
            r == (RtrSession { rx_counter: r.rx_counter, ..*self }),
            r.rx_counter.counts() == self.rx_counter.counts(),
    {
        RtrSession {
            local_address: self.local_address,
            uptime: self.uptime,
            downtime: self.downtime,
            serial_number: self.serial_number,
            rx_counter: self.rx_counter.clone(),
        }
    }
}

impl RtrSession {
    /// Whether the session has not been connected yet.
    pub open spec fn is_new(self) -> bool {
        &&& self.local_address is None
        &&& self.uptime == Timestamp::spec_epoch()
        &&& self.downtime == Timestamp::spec_epoch()
        &&& self.serial_number == 0
        &&& forall|t: u8| #[trigger] self.rx_counter.count(t) == 0
    }

    /// Whether this is the session `before`, with the message `msg` counted.
    pub open spec fn counted_from(self, before: RtrSession, msg: Message) -> bool {
        &&& self == (RtrSession { rx_counter: self.rx_counter, ..before })
        &&& self.rx_counter.counts() == before.rx_counter.counts().insert(
            msg.code(),
            (before.rx_counter.count(msg.code()) + 1) as i64,
        )
    }

    /// A session that has not been connected yet.
    pub fn new() -> (r: RtrSession)
        ensures
            r.is_new(),
    {
        RtrSession {
            local_address: None,
            uptime: Timestamp::epoch(),
            downtime: Timestamp::epoch(),
            serial_number: 0,
            rx_counter: Counter::new(),
        }
    }

    /// Counts a message that has come in.
    pub fn inc_rx_counter(&mut self, msg: &Message)
        requires
            old(self).rx_counter.count(msg.code()) < i64::MAX,
        ensures
            final(self).counted_from(*old(self), *msg),
    {
        self.rx_counter.inc(msg.message_type());
    }

    /// How many messages of type `t` have come in.
    pub fn rx_counter(&self, t: u8) -> (r: i64)
        ensures
            r == self.rx_counter.count(t),
    {
        self.rx_counter.get(t)
    }
}

/// Each type of message has the code that the protocol gives it.
pub proof fn law_message_codes(m: Message)
    ensures
        match m {
            Message::SerialNotify => m.code() == 0,
            Message::SerialQuery => m.code() == 1,
            Message::ResetQuery => m.code() == 2,
            Message::CacheResponse => m.code() == 3,
            Message::Ipv4Prefix(_) => m.code() == 4,
            Message::Ipv6Prefix(_) => m.code() == 6,
            Message::EndOfData => m.code() == 7,
            Message::CacheReset => m.code() == 8,
            Message::ErrorReport => m.code() == 10,
            Message::Other(c) => m.code() == c,
        },
{
}

/// A message that comes in is counted once, under its own type, and changes nothing else.
pub proof fn law_counted_message(after: RtrSession, before: RtrSession, m: Message, t: u8)
    requires
        after.counted_from(before, m),
        before.rx_counter.count(m.code()) < i64::MAX,
    ensures
        after.rx_counter.count(m.code()) == before.rx_counter.count(m.code()) + 1,
        t != m.code() ==> after.rx_counter.count(t) == before.rx_counter.count(t),
        after.local_address == before.local_address,
        after.uptime == before.uptime,
        after.downtime == before.downtime,
        after.serial_number == before.serial_number,
{
}

/// A session that has not been connected has no address, no times and nothing counted.
pub proof fn law_new_session(s: RtrSession, t: u8)
    requires
        s.is_new(),
    ensures
        s.local_address is None,
        s.uptime.since_epoch() == 0,
        s.downtime.since_epoch() == 0,
        s.serial_number == 0,
        s.rx_counter.count(t) == 0,
{
}

} // verus!
