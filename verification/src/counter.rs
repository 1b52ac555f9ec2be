//! Counters of messages.
use std::collections::HashMap;
use vstd::prelude::*;
use crate::bgp::Message;

verus! {

/// A counter for each type of message.
pub struct Counter {
    c: HashMap<u8, i64>,
}

impl Clone for Counter {
    fn clone(&self) -> (r: Self)
        ensures
            r.counts() == self.counts(),
    {
        broadcast use vstd::std_specs::hash::group_hash_axioms;

        let r = Counter { c: self.c.clone() };
        assert(r.counts() =~= self.counts());
        r
    }
}

impl Counter {
    /// The counts of the types that have been counted.
    pub closed spec fn counts(self) -> Map<u8, i64> {
        self.c@
    }

    /// How often the type `t` has been counted.
    pub open spec fn count(self, t: u8) -> i64 {
        count_in(self.counts(), t)
    }

    /// Counters that all stand at zero.
    pub fn new() -> (r: Counter)
        ensures
            r.counts() == Map::<u8, i64>::empty(),
            forall|t: u8| #[trigger] r.count(t) == 0,
    {
        Counter { c: HashMap::new() }
    }

    /// Counts one message of type `t`.
    pub fn inc(&mut self, t: u8)
        requires
            old(self).count(t) < i64::MAX,
        ensures
            final(self).counts() == old(self).counts().insert(t, (old(self).count(t) + 1) as i64),
            final(self).count(t) == old(self).count(t) + 1,
            forall|u: u8| u != t ==> #[trigger] final(self).count(u) == old(self).count(u),
    {
        broadcast use vstd::std_specs::hash::group_hash_axioms;

        let n: i64 = match self.c.get(&t) {
            Some(v) => *v + 1,
            None => 1,
        };
        self.c.insert(t, n);
    }

    /// How often the type `t` has been counted.
    pub fn get(&self, t: u8) -> (r: i64)
        ensures
            r == self.count(t),
    {
        broadcast use vstd::std_specs::hash::group_hash_axioms;

        match self.c.get(&t) {
            Some(v) => *v,
            None => 0,
        }
    }
}

/// The counts after messages of the types `s` have been counted, one after the other.
pub open spec fn counted_all(m: Map<u8, i64>, s: Seq<u8>) -> Map<u8, i64>
    decreases s.len(),
{
    if s.len() == 0 {
        m
    } else {
        let before = counted_all(m, s.drop_last());
        before.insert(s.last(), (count_in(before, s.last()) + 1) as i64)
    }
}

/// The count of the type `t`, zero where it has not been counted yet.
pub open spec fn count_in(m: Map<u8, i64>, t: u8) -> i64 {
    if m.contains_key(t) {
        m[t]
    } else {
        0
    }
}

/// Counters that start at zero hold how often each type occurs among the messages that have been
/// counted, whatever their order.
pub proof fn law_counts_occurrences(s: Seq<u8>, t: u8)
    requires
        s.len() <= i64::MAX,
    ensures
        count_in(counted_all(Map::empty(), s), t) == s.to_multiset().count(t),
    decreases s.len(),
{
    broadcast use vstd::multiset::group_multiset_axioms;

    if s.len() == 0 {
        vstd::seq_lib::to_multiset_len(s);
        vstd::seq_lib::to_multiset_contains(s, t);
    } else {
        let r = s.drop_last();
        let x = s.last();
        assert(r.push(x) =~= s);
        law_counts_occurrences(r, t);
        law_counts_occurrences(r, x);
        vstd::seq_lib::to_multiset_build(r, x);
        vstd::seq_lib::to_multiset_len(r);
        assert(r.to_multiset().count(x) <= r.to_multiset().len());
    }
}

/// Counters of the BGP messages that went over a session in one direction.
#[derive(Clone, Copy, PartialEq, Eq, Structural, Debug)]
pub struct MessageCounter {
    pub open: u64,
    pub update: u64,
    pub notification: u64,
    pub keepalive: u64,
    pub refresh: u64,
    pub discarded: u64,
    pub total: u64,
    pub withdraw_update: u64,
    pub withdraw_prefix: u64,
}

impl Default for MessageCounter {
    fn default() -> (r: MessageCounter)
        ensures
            r == MessageCounter::zero(),
    {
        MessageCounter {
            open: 0,
            update: 0,
            notification: 0,
            keepalive: 0,
            refresh: 0,
            discarded: 0,
            total: 0,
            withdraw_update: 0,
            withdraw_prefix: 0,
        }
    }
}

impl MessageCounter {
    /// The counters before the first message.
    pub open spec fn zero() -> MessageCounter {
        MessageCounter {
            open: 0,
            update: 0,
            notification: 0,
            keepalive: 0,
            refresh: 0,
            discarded: 0,
            total: 0,
            withdraw_update: 0,
            withdraw_prefix: 0,
        }
    }

    /// Whether the counters can take one more message `msg`.
    pub open spec fn has_room(self, msg: Message) -> bool {
        &&& self.total < u64::MAX
        &&& match msg {
            Message::Open(_) => self.open < u64::MAX,
            Message::Update(update) => {
                &&& self.update < u64::MAX
                &&& self.withdraw_prefix + update.withdrawns@.len() <= u64::MAX
                &&& update.withdrawns@.len() > 0 ==> self.withdraw_update < u64::MAX
            },
            Message::Notification(_) => self.notification < u64::MAX,
            Message::Keepalive => self.keepalive < u64::MAX,
            Message::RouteRefresh(_) => self.refresh < u64::MAX,
            Message::Unknown { .. } => self.discarded < u64::MAX,
        }
    }

    /// The counters after one more OPEN message.
    pub open spec fn opened(self) -> MessageCounter {
        MessageCounter { open: (self.open + 1) as u64, total: (self.total + 1) as u64, ..self }
    }

    /// The counters after `n` more UPDATE messages that withdraw `withdraw` routes.
    pub open spec fn updated(self, n: u64, withdraw: (u64, u64)) -> MessageCounter {
        MessageCounter {
            update: (self.update + n) as u64,
            total: (self.total + n) as u64,
            withdraw_update: (self.withdraw_update + withdraw.0) as u64,
            withdraw_prefix: (self.withdraw_prefix + withdraw.1) as u64,
            ..self
        }
    }

    /// Whether the counters can take `n` more UPDATE messages that withdraw `withdraw` routes.
    pub open spec fn has_room_for(self, n: u64, withdraw: (u64, u64)) -> bool {
        &&& self.update + n <= u64::MAX
        &&& self.total + n <= u64::MAX
        &&& self.withdraw_update + withdraw.0 <= u64::MAX
        &&& self.withdraw_prefix + withdraw.1 <= u64::MAX
    }

    /// The counters after one more message `msg`.
    pub open spec fn counted(self, msg: Message) -> MessageCounter {
        let c = MessageCounter { total: (self.total + 1) as u64, ..self };
        match msg {
            Message::Open(_) => self.opened(),
            Message::Update(update) => MessageCounter {
                update: (self.update + 1) as u64,
                withdraw_prefix: (self.withdraw_prefix + update.withdrawns@.len()) as u64,
                withdraw_update: if update.withdrawns@.len() > 0 {
                    (self.withdraw_update + 1) as u64
                } else {
                    self.withdraw_update
                },
                ..c
            },
            Message::Notification(_) => MessageCounter {
                notification: (self.notification + 1) as u64,
                ..c
            },
            Message::Keepalive => MessageCounter { keepalive: (self.keepalive + 1) as u64, ..c },
            Message::RouteRefresh(_) => MessageCounter { refresh: (self.refresh + 1) as u64, ..c },
            Message::Unknown { .. } => MessageCounter {
                discarded: (self.discarded + 1) as u64,
                ..c
            },
        }
    }

    /// The total is the sum of the counters of the message types.
    pub open spec fn balanced(self) -> bool {
        self.total == self.open + self.update + self.notification + self.keepalive + self.refresh
            + self.discarded
    }

    /// Whether the counters can take one more message.
    pub fn can_sync(&self, msg: &Message) -> (r: bool)
        ensures
            r == self.has_room(*msg),
    {
        if self.total == u64::MAX {
            return false;
        }
        match msg {
            Message::Open(_) => self.open < u64::MAX,
            Message::Update(update) => {
                self.update < u64::MAX && update.withdrawns.len() as u64 <= u64::MAX
                    - self.withdraw_prefix && (update.withdrawns.len() == 0 || self.withdraw_update
                    < u64::MAX)
            },
            Message::Notification(_) => self.notification < u64::MAX,
            Message::Keepalive => self.keepalive < u64::MAX,
            Message::RouteRefresh(_) => self.refresh < u64::MAX,
            Message::Unknown { .. } => self.discarded < u64::MAX,
        }
    }

    /// Counts an OPEN message.
    pub fn count_open(&mut self)
        requires
            old(self).open < u64::MAX,
            old(self).total < u64::MAX,
        ensures
            *final(self) == old(self).opened(),
    {
        self.open += 1;
        self.total += 1;
    }

    /// Whether the counters can take `n` more UPDATE messages that withdraw `withdraw` routes.
    pub fn can_count_updates(&self, n: u64, withdraw: (u64, u64)) -> (r: bool)
        ensures
            r == self.has_room_for(n, withdraw),
    {
        n <= u64::MAX - self.update && n <= u64::MAX - self.total && withdraw.0 <= u64::MAX
            - self.withdraw_update && withdraw.1 <= u64::MAX - self.withdraw_prefix
    }

    /// Counts `n` UPDATE messages that withdraw `withdraw` routes.
    pub fn count_updates(&mut self, n: u64, withdraw: (u64, u64))
        requires
            old(self).has_room_for(n, withdraw),
        ensures
            *final(self) == old(self).updated(n, withdraw),
    {
        self.update += n;
        self.total += n;
        self.withdraw_update += withdraw.0;
        self.withdraw_prefix += withdraw.1;
    }

    /// Counts one message.
    pub fn sync(&mut self, msg: &Message)
        requires
            old(self).has_room(*msg),
        ensures
            *final(self) == old(self).counted(*msg),
    {
        match msg {
            Message::Open(_) => {
                self.open += 1;
            },
            Message::Update(update) => {
                self.update += 1;
                self.withdraw_prefix += update.withdrawns.len() as u64;
                if update.withdrawns.len() > 0 {
                    self.withdraw_update += 1;
                }
            },
            Message::Notification(_) => {
                self.notification += 1;
            },
            Message::Keepalive => {
                self.keepalive += 1;
            },
            Message::RouteRefresh(_) => {
                self.refresh += 1;
            },
            Message::Unknown { .. } => {
                self.discarded += 1;
            },
        }
        self.total += 1;
    }
}

/// Counting keeps the total equal to the sum of the counters of the message types, and it starts
/// out so.
pub proof fn law_counting_stays_balanced(
    c: MessageCounter,
    msg: Message,
    n: u64,
    withdraw: (u64, u64),
)
    requires
        c.balanced(),
        c.has_room(msg),
        c.has_room_for(n, withdraw),
    ensures
        MessageCounter::zero().balanced(),
        c.counted(msg).balanced(),
        c.updated(n, withdraw).balanced(),
{
}

/// The counters after the messages `s`, one after the other.
pub open spec fn counted_messages(c: MessageCounter, s: Seq<Message>) -> MessageCounter
    decreases s.len(),
{
    if s.len() == 0 {
        c
    } else {
        counted_messages(c, s.drop_last()).counted(s.last())
    }
}

/// Whether the counters can take the messages `s`, one after the other.
pub open spec fn room_for_messages(c: MessageCounter, s: Seq<Message>) -> bool {
    forall|i: int|
        0 <= i < s.len() ==> counted_messages(c, #[trigger] s.take(i)).has_room(s[i])
}

/// From zero on, the total is the number of messages that have been counted and the sum of the
/// counters of their types. No more messages have withdrawn routes than there were updates, nor
/// more than routes were withdrawn.
pub proof fn law_total_is_number_of_messages(s: Seq<Message>)
    requires
        room_for_messages(MessageCounter::zero(), s),
    ensures
        ({
            let c = counted_messages(MessageCounter::zero(), s);
            &&& c.total == s.len()
            &&& c.balanced()
            &&& c.withdraw_update <= c.update
            &&& c.withdraw_update <= c.withdraw_prefix
        }),
    decreases s.len(),
{
    if s.len() > 0 {
        let t = s.drop_last();
        assert forall|i: int| 0 <= i < t.len() implies counted_messages(
            MessageCounter::zero(),
            #[trigger] t.take(i),
        ).has_room(t[i]) by {
            assert(t.take(i) =~= s.take(i));
        }
        law_total_is_number_of_messages(t);
        assert(s.take(s.len() - 1) =~= t);
    }
}

/// A message adds one to the total and one to the counter of its type. An UPDATE message adds the
/// number of routes that it withdraws to those, and one to the messages that withdraw where there
/// are any. All other counters stay.
pub proof fn law_counted(c: MessageCounter, msg: Message)
    requires
        c.has_room(msg),
    ensures
        ({
            let d = c.counted(msg);
            let n = match msg {
                Message::Update(u) => u.withdrawns@.len(),
                _ => 0,
            };
            &&& d.total == c.total + 1
            &&& d.open == c.open + if msg is Open {
                1int
            } else {
                0
            }
            &&& d.update == c.update + if msg is Update {
                1int
            } else {
                0
            }
            &&& d.notification == c.notification + if msg is Notification {
                1int
            } else {
                0
            }
            &&& d.keepalive == c.keepalive + if msg is Keepalive {
                1int
            } else {
                0
            }
            &&& d.refresh == c.refresh + if msg is RouteRefresh {
                1int
            } else {
                0
            }
            &&& d.discarded == c.discarded + if msg is Unknown {
                1int
            } else {
                0
            }
            &&& d.withdraw_prefix == c.withdraw_prefix + n
            &&& d.withdraw_update == c.withdraw_update + if n > 0 {
                1int
            } else {
                0
            }
        }),
{
}

/// Messages that are counted at once add as much as they would one by one.
pub proof fn law_counted_at_once(c: MessageCounter, n: u64, withdraw: (u64, u64))
    requires
        c.has_room_for(n, withdraw),
        c.open < u64::MAX,
        c.total < u64::MAX,
    ensures
        ({
            let d = c.updated(n, withdraw);
            &&& d.update == c.update + n
            &&& d.total == c.total + n
            &&& d.withdraw_update == c.withdraw_update + withdraw.0
            &&& d.withdraw_prefix == c.withdraw_prefix + withdraw.1
            &&& d.open == c.open && d.notification == c.notification && d.keepalive == c.keepalive
                && d.refresh == c.refresh && d.discarded == c.discarded
            &&& c.opened().open == c.open + 1
            &&& c.opened().total == c.total + 1
            &&& c.opened().update == c.update && c.opened().notification == c.notification
                && c.opened().keepalive == c.keepalive && c.opened().refresh == c.refresh
                && c.opened().discarded == c.discarded && c.opened().withdraw_update
                == c.withdraw_update && c.opened().withdraw_prefix == c.withdraw_prefix
        }),
{
}

} // verus!
