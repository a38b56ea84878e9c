use msdp::server::server::{
    announcement, classify_datagram, is_recent_at, keepalive_due, process_message_at,
    read_timeout_secs, retain_recent, Received,
};
use msdp::structs::entry::Entry;
use msdp::structs::message::MessageV1;

fn id(n: u8) -> [u8; 16] {
    [n; 16]
}

fn msg(n: u8, name: &str, uptime: u32, load: [u16; 3]) -> MessageV1 {
    MessageV1::new(id(n), name.to_string(), "Linux".to_string(), "6.1".to_string(), 5, uptime, load)
}

fn entry(n: u8, address: &str, last_seen: u64) -> Entry {
    Entry::from_message_at(msg(n, "old", 1, [0, 0, 0]), address.to_string(), last_seen)
}

#[test]
fn new_server_is_appended() {
    let mut t = vec![entry(1, "10.0.0.1", 100)];
    process_message_at(&mut t, msg(2, "b", 7, [1, 2, 3]), "10.0.0.2".to_string(), 105, 5);
    assert_eq!(t.len(), 2);
    assert_eq!(t[0].unique_id, id(1));
    assert_eq!(t[1].unique_id, id(2));
    assert_eq!(t[1].address, "10.0.0.2");
    assert_eq!(t[1].system_name, "b");
    assert_eq!(t[1].last_seen, 105);
    assert_eq!(t[1].uptime, 7);
    assert_eq!(t[1].load, [1, 2, 3]);
}

#[test]
fn known_server_is_refreshed_in_place() {
    let mut t = vec![entry(1, "10.0.0.1", 100), entry(2, "10.0.0.2", 101)];
    let mut m = msg(1, "renamed", 99, [5, 6, 7]);
    m.keepalive_timer = 9;
    process_message_at(&mut t, m, "10.9.9.9".to_string(), 108, 5);
    assert_eq!(t.len(), 2);
    assert_eq!(t[0].unique_id, id(1));
    assert_eq!(t[0].address, "10.0.0.1");
    assert_eq!(t[0].system_name, "old");
    assert_eq!(t[0].last_seen, 108);
    assert_eq!(t[0].uptime, 99);
    assert_eq!(t[0].load, [5, 6, 7]);
    assert_eq!(t[0].keepalive_timer, 9);
    assert_eq!(t[1].last_seen, 101);
}

#[test]
fn stale_entries_are_dropped() {
    // heard at 100 with a 5 s keepalive: kept up to 110, dropped at 111
    let mut t = vec![entry(1, "a", 100), entry(2, "b", 89)];
    process_message_at(&mut t, msg(3, "c", 1, [0, 0, 0]), "c".to_string(), 110, 5);
    assert_eq!(t.len(), 2);
    assert_eq!(t[0].unique_id, id(1));
    assert_eq!(t[1].unique_id, id(3));
    process_message_at(&mut t, msg(3, "c", 2, [0, 0, 0]), "c".to_string(), 111, 5);
    assert_eq!(t.len(), 1);
    assert_eq!(t[0].unique_id, id(3));
}

#[test]
fn repeated_announcement_changes_nothing() {
    let mut t = vec![entry(1, "a", 100), entry(2, "b", 95)];
    process_message_at(&mut t, msg(2, "b", 3, [1, 1, 1]), "b".to_string(), 100, 5);
    let snapshot: Vec<(u64, u32)> = t.iter().map(|e| (e.last_seen, e.uptime)).collect();
    process_message_at(&mut t, msg(2, "b", 3, [1, 1, 1]), "b".to_string(), 100, 5);
    let again: Vec<(u64, u32)> = t.iter().map(|e| (e.last_seen, e.uptime)).collect();
    assert_eq!(snapshot, again);
    assert_eq!(t.len(), 2);
}

#[test]
fn recency_bound() {
    assert!(is_recent_at(100, 110, 5));
    assert!(!is_recent_at(100, 111, 5));
    assert!(is_recent_at(200, 100, 0));
    assert!(is_recent_at(u64::MAX, 0, 5));
    let mut t = vec![entry(1, "a", 100), entry(2, "b", 50), entry(3, "c", 120)];
    retain_recent(&mut t, 111, 5);
    assert_eq!(t.len(), 1);
    assert_eq!(t[0].unique_id, id(3));
}

#[test]
fn datagram_classification() {
    let own = id(4);
    let other = msg(5, "x", 1, [0, 0, 0]).to_bytes();
    match classify_datagram(&own, &other) {
        Received::Announcement(m) => assert_eq!(m.unique_id, id(5)),
        _ => panic!("expected an announcement"),
    }
    let mine = msg(4, "me", 1, [0, 0, 0]).to_bytes();
    assert!(matches!(classify_datagram(&own, &mine), Received::OwnAnnouncement));
    let mut bad = msg(5, "x", 1, [0, 0, 0]);
    bad.version = 3;
    assert!(matches!(classify_datagram(&own, &bad.to_bytes()), Received::Unreadable));
}

#[test]
fn announcement_defaults() {
    let bytes = announcement(id(8), None, Some("Linux".to_string()), None, 5, None, None);
    let m = MessageV1::parse(&bytes).unwrap();
    assert_eq!(m.system_name, "Unknown");
    assert_eq!(m.system_platform, "Linux");
    assert_eq!(m.system_version, "Unknown");
    assert_eq!(m.uptime, 0);
    assert_eq!(m.load, [0, 0, 0]);
    assert_eq!(m.keepalive_timer, 5);
    assert_eq!(m.unique_id, id(8));
}

#[test]
fn announcement_cuts_uptime_to_32_bits() {
    let bytes = announcement(
        id(8),
        Some("h".to_string()),
        Some("o".to_string()),
        Some("r".to_string()),
        5,
        Some((1u64 << 32) + 17),
        Some([12, 34, 56]),
    );
    let m = MessageV1::parse(&bytes).unwrap();
    assert_eq!(m.uptime, 17);
    assert_eq!(m.load, [12, 34, 56]);
    assert_eq!(m.system_name, "h");
}

#[test]
fn send_schedule() {
    assert!(!keepalive_due(4, 5));
    assert!(keepalive_due(5, 5));
    assert!(keepalive_due(6, 5));
    assert_eq!(read_timeout_secs(5), 2);
    assert_eq!(read_timeout_secs(10), 5);
}

#[test]
fn own_announcement_is_recognized() {
    let bytes = announcement(
        id(6),
        Some("me".to_string()),
        None,
        None,
        5,
        Some(10),
        Some([1, 2, 3]),
    );
    assert!(MessageV1::is_complete_frame(&bytes));
    assert!(matches!(classify_datagram(&id(6), &bytes), Received::OwnAnnouncement));
    assert!(matches!(classify_datagram(&id(7), &bytes), Received::Announcement(_)));
}

#[test]
fn one_entry_per_server() {
    let mut t = vec![entry(1, "a", 100), entry(2, "b", 100)];
    for step in 0..4u64 {
        process_message_at(&mut t, msg(2, "b", 1, [0, 0, 0]), "b".to_string(), 100 + step, 5);
        process_message_at(&mut t, msg(3, "c", 1, [0, 0, 0]), "c".to_string(), 100 + step, 5);
    }
    let mut ids: Vec<[u8; 16]> = t.iter().map(|e| e.unique_id).collect();
    ids.sort();
    ids.dedup();
    assert_eq!(ids.len(), t.len());
    assert_eq!(t.len(), 3);
}

#[test]
fn entry_from_message_with_clock() {
    let e = Entry::from_message(msg(9, "n", 44, [7, 8, 9]), "10.1.1.1".to_string());
    assert_eq!(e.unique_id, id(9));
    assert_eq!(e.system_name, "n");
    assert_eq!(e.address, "10.1.1.1");
    assert_eq!(e.uptime, 44);
    assert_eq!(e.load, [7, 8, 9]);
    assert!(e.last_seen > 1_600_000_000);
}
