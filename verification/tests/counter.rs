use rustybgp::addr::IpAddr;
use rustybgp::api;
use rustybgp::bgp::{Family, Message, Nlri, NotificationCode, OpenMessage, UpdateMessage};
use rustybgp::addr::IpNet;
use rustybgp::counter::{Counter, MessageCounter};

#[test]
fn counter_counts_each_type() {
    let mut c = Counter::new();
    assert_eq!(0, c.get(4));
    c.inc(4);
    c.inc(4);
    c.inc(5);
    assert_eq!(2, c.get(4));
    assert_eq!(1, c.get(5));
    assert_eq!(0, c.get(6));
}

fn update(withdrawns: usize) -> Message {
    Message::Update(UpdateMessage {
        attrs: Vec::new(),
        routes: Vec::new(),
        withdrawns: (0..withdrawns)
            .map(|i| Nlri::Ip(IpNet { addr: IpAddr::V4(i as u32), mask: 32 }))
            .collect(),
        mp_routes: Vec::new(),
        nexthop: IpAddr::V4(0),
    })
}

#[test]
fn message_counter() {
    let mut c = MessageCounter::default();
    let open = OpenMessage { id: 1, as_number: 2, holdtime: 90, params: Vec::new() };
    c.sync(&Message::Open(open));
    c.sync(&update(0));
    c.sync(&update(3));
    c.sync(&Message::Notification(NotificationCode::PeerDeconfigured));
    c.sync(&Message::Keepalive);
    c.sync(&Message::Keepalive);
    c.sync(&Message::RouteRefresh(Family::Ipv4Uc));
    c.sync(&Message::Unknown { length: 19, code: 9 });
    assert_eq!(
        MessageCounter {
            open: 1,
            update: 2,
            notification: 1,
            keepalive: 2,
            refresh: 1,
            discarded: 1,
            total: 8,
            withdraw_update: 1,
            withdraw_prefix: 3,
        },
        c
    );
    c.count_updates(5, (2, 2));
    c.count_open();
    assert_eq!(7, c.update);
    assert_eq!(2, c.open);
    assert_eq!(14, c.total);
    assert_eq!(3, c.withdraw_update);
    assert_eq!(5, c.withdraw_prefix);
    assert_eq!(
        c.total,
        c.open + c.update + c.notification + c.keepalive + c.refresh + c.discarded
    );
    assert_eq!(
        api::Message {
            open: 2,
            update: 7,
            notification: 1,
            keepalive: 2,
            refresh: 1,
            discarded: 1,
            total: 14,
            withdraw_update: 3,
            withdraw_prefix: 5,
        },
        c.to_api()
    );
}

#[test]
fn message_counter_is_full() {
    let mut c = MessageCounter::default();
    assert!(c.can_sync(&Message::Keepalive));
    assert!(c.can_count_updates(u64::MAX, (0, 0)));
    c.keepalive = u64::MAX;
    assert!(!c.can_sync(&Message::Keepalive));
    assert!(c.can_sync(&update(1)));
    c.withdraw_update = u64::MAX;
    assert!(!c.can_sync(&update(1)));
    assert!(c.can_sync(&update(0)));
    assert!(!c.can_count_updates(1, (1, 1)));
    c.total = u64::MAX;
    assert!(!c.can_sync(&update(0)));
}

#[test]
fn counter_counts_in_any_order() {
    let count = |types: Vec<u8>| -> Vec<i64> {
        let mut c = Counter::new();
        for t in types {
            c.inc(t);
        }
        (0..4).map(|t| c.get(t)).collect()
    };
    assert_eq!(vec![1, 3, 0, 2], count(vec![1, 3, 1, 0, 3, 1]));
    assert_eq!(vec![1, 3, 0, 2], count(vec![0, 1, 1, 1, 3, 3]));
    let mut c = Counter::new();
    c.inc(2);
    let mut d = c.clone();
    d.inc(2);
    assert_eq!((1, 2), (c.get(2), d.get(2)));
}

#[test]
fn message_counter_total_is_the_number_of_messages() {
    let mut c = MessageCounter::default();
    let messages = vec![update(2), Message::Keepalive, update(0), update(1), Message::Keepalive];
    for m in &messages {
        assert!(c.can_sync(m));
        c.sync(m);
        assert!(c.withdraw_update <= c.update && c.withdraw_update <= c.withdraw_prefix);
    }
    assert_eq!(messages.len() as u64, c.total);
    assert_eq!((3, 2, 3), (c.update, c.withdraw_update, c.withdraw_prefix));
}
