//! The registry: ownership, subscribers, fan-out, loop prevention.
use std::sync::Arc;

use macro_bus::queue::{ConnHandle, Outbound, SendOutcome};
use macro_bus::registry::{Registry, TypeReg};
use macro_bus::seen::SeenSet;
use macro_bus::status;
use macro_bus::table::Table;
use macro_bus::Message;
use tokio::sync::{mpsc, Notify};

fn handle(id: u64, depth: usize) -> (ConnHandle, mpsc::Receiver<Outbound>) {
    let (tx, rx) = mpsc::channel(depth);
    let h = ConnHandle { id, tx, drop_notify: Arc::new(Notify::new()) };
    (h, rx)
}

fn reg(key: &str, origin: &str, ts: u64) -> TypeReg {
    TypeReg { key: key.into(), origin_daemon: origin.into(), ts }
}

#[test]
fn register_first_wins_same_key_idempotent() {
    let mut r = Registry::new("d1", 1024);
    let a = r.register_local("t", "k", 100).unwrap();
    assert!(a.changed);
    let b = r.register_local("t", "k", 200).unwrap();
    assert!(!b.changed, "same key is idempotent");
    let e = r.register_local("t", "other", 300).unwrap_err();
    assert_eq!(e.code, status::ALREADY_REGISTERED);
}

#[test]
fn publish_requires_registration_and_key() {
    let mut r = Registry::new("d1", 1024);
    let e = r.publish_local("t", "k", vec!["x".into()]).unwrap_err();
    assert_eq!(e.code, status::UNKNOWN_TYPE);
    r.register_local("t", "k", 1).unwrap();
    let e = r.publish_local("t", "wrong", vec!["x".into()]).unwrap_err();
    assert_eq!(e.code, status::KEY_MISMATCH);
    assert!(r.publish_local("t", "k", vec!["x".into()]).is_ok());
}

#[test]
fn fanout_delivers_to_subscribers() {
    let mut r = Registry::new("d1", 1024);
    r.register_local("t", "k", 1).unwrap();
    let (h1, mut rx1) = handle(1, 8);
    let (h2, mut rx2) = handle(2, 8);
    r.subscribe("t", h1);
    r.subscribe("t", h2);
    assert_eq!(r.subscriber_count("t"), 2);
    let msg = r.publish_local("t", "k", vec!["hi".into()]).unwrap();
    for rx in [&mut rx1, &mut rx2] {
        match rx.try_recv().unwrap() {
            Outbound::Deliver(m) => {
                assert_eq!(m.body, vec!["hi".to_string()]);
                assert_eq!(m.msg_id, msg.msg_id);
                assert_eq!(m.origin, "d1");
            }
            _ => panic!("expected deliver"),
        }
    }
}

#[test]
fn tail_drop_records_and_notifies() {
    let mut r = Registry::new("d1", 1024);
    r.register_local("t", "k", 1).unwrap();
    let (h, _rx) = handle(1, 1); // depth 1, we never drain
    r.subscribe("t", h);
    // First publish fills the queue; subsequent ones tail-drop.
    r.publish_local("t", "k", vec!["1".into()]).unwrap();
    r.publish_local("t", "k", vec!["2".into()]).unwrap();
    r.publish_local("t", "k", vec!["3".into()]).unwrap();
    let d = r.take_drops(1);
    assert_eq!(d, vec![("t".to_string(), 2)], "two messages tail-dropped");
}

#[test]
fn ingest_remote_dedup() {
    let mut r = Registry::new("d2", 1024);
    r.register_local("t", "k", 1).unwrap();
    let (h, mut rx) = handle(1, 8);
    r.subscribe("t", h);
    let m = Arc::new(Message::new("t", "d1-1", "d1", vec!["hi".into()]));
    assert!(r.ingest_remote(&m), "first is new");
    assert!(!r.ingest_remote(&m), "second is a dup -> dropped");
    // Only one delivery happened.
    assert!(matches!(rx.try_recv(), Ok(Outbound::Deliver(_))));
    assert!(rx.try_recv().is_err());
}

#[test]
fn remote_registration_conflict_lowest_tuple_wins() {
    let mut r = Registry::new("d2", 1024);
    // Local registers t with a late timestamp.
    r.register_local("t", "localkey", 500).unwrap();
    // Peer d1 registered earlier -> wins.
    let winner = r
        .apply_remote_registration("t", reg("peerkey", "d1", 100))
        .expect("incoming wins");
    assert_eq!(winner.key, "peerkey");
    // A later (higher-ts) incoming loses.
    let none = r.apply_remote_registration("t", reg("z", "d0", 999));
    assert!(none.is_none());
}

#[test]
fn seen_set_evicts_oldest() {
    let mut s = SeenSet::new(2);
    assert!(s.insert("a"));
    assert!(s.insert("b"));
    assert!(!s.insert("a")); // still present
    assert!(s.insert("c")); // evicts "a"
    assert!(s.insert("a")); // "a" was evicted -> treated as new again
}

#[test]
fn duplicates_are_dropped_within_the_horizon() {
    let mut r = Registry::new("d2", 3);
    r.register_local("t", "k", 1).unwrap();
    let m = Arc::new(Message::new("t", "d1-1", "d1", vec!["hi".into()]));
    assert!(r.ingest_remote(&m));
    // Two further messages, one from a peer and one from here, leave it in place.
    assert!(r.ingest_remote(&Arc::new(Message::new("t", "d1-2", "d1", vec![]))));
    assert_eq!(r.publish_local("t", "k", vec!["x".into()]).unwrap().msg_id, "d2-1");
    assert!(!r.ingest_remote(&m));
    // The third is one too many.
    assert!(r.ingest_remote(&Arc::new(Message::new("t", "d1-3", "d1", vec![]))));
    assert!(r.ingest_remote(&m));
}

#[test]
fn own_messages_are_dropped_within_the_horizon() {
    let mut r = Registry::new("d1", 2);
    r.register_local("t", "k", 1).unwrap();
    let (h, mut rx) = handle(1, 8);
    r.subscribe("t", h);
    let own = r.publish_local("t", "k", vec!["x".into()]).unwrap();
    assert!(r.ingest_remote(&Arc::new(Message::new("t", "d2-1", "d2", vec![]))));
    assert!(!r.ingest_remote(&own));
    // Each of the two was delivered, once.
    for id in ["d1-1", "d2-1"] {
        assert!(matches!(rx.try_recv(), Ok(Outbound::Deliver(m)) if m.msg_id == id));
    }
    assert!(rx.try_recv().is_err());
}

#[test]
fn seen_set_holds_one_at_least() {
    let mut s = SeenSet::new(0);
    assert!(s.insert("a"));
    assert!(!s.insert("a"));
    assert!(s.insert("b"));
    assert!(s.insert("a"));
}

#[test]
fn refusals_say_why_and_change_nothing() {
    let mut r = Registry::new("d1", 8);
    assert_eq!(
        r.publish_precheck("t", "k").unwrap().reason,
        "t not registered"
    );
    r.register_local("t", "k", 1).unwrap();
    assert_eq!(
        r.publish_precheck("t", "x").unwrap().reason,
        "authorization key mismatch"
    );
    assert!(r.publish_precheck("t", "k").is_none());
    let e = r.register_local("t", "x", 2).unwrap_err();
    assert_eq!(e.reason, "t already registered");
    assert!(r.publish_precheck("t", "k").is_none());
    // A refused publish uses up no message id.
    assert!(r.publish_local("t", "x", vec![]).is_err());
    assert_eq!(r.publish_local("t", "k", vec![]).unwrap().msg_id, "d1-1");
}

#[test]
fn message_ids_count_in_hexadecimal() {
    let mut r = Registry::new("d1", 8);
    assert_eq!(r.daemon_id(), "d1");
    let ids: Vec<String> = (0..17).map(|_| r.next_msg_id()).collect();
    assert_eq!(ids[0], "d1-1");
    assert_eq!(ids[9], "d1-a");
    assert_eq!(ids[16], "d1-11");
}

#[test]
fn own_message_coming_back_is_dropped() {
    let mut r = Registry::new("d1", 8);
    r.register_local("t", "k", 1).unwrap();
    let (h, mut rx) = handle(1, 8);
    r.subscribe("t", h);
    let m = r.publish_local("t", "k", vec!["x".into()]).unwrap();
    assert!(!r.ingest_remote(&m));
    assert!(rx.try_recv().is_ok());
    assert!(rx.try_recv().is_err());
}

#[test]
fn registrations_converge_in_any_order() {
    let records = [reg("a", "d2", 7), reg("b", "d1", 7), reg("c", "d3", 9), reg("b", "d1", 7)];
    let orders = [[0, 1, 2, 3], [3, 2, 1, 0], [2, 0, 3, 1]];
    for order in orders {
        let mut r = Registry::new("d9", 8);
        for i in order {
            r.apply_remote_registration("t", records[i].clone());
        }
        assert_eq!(r.all_registrations(), vec![("t".to_string(), reg("b", "d1", 7))]);
    }
}

#[test]
fn equal_tuples_keep_the_record_that_was_first() {
    let mut r = Registry::new("d9", 8);
    assert!(r.apply_remote_registration("t", reg("a", "d1", 7)).is_some());
    assert!(r.apply_remote_registration("t", reg("b", "d1", 7)).is_none());
    assert_eq!(r.all_registrations()[0].1.key, "a");
}

#[test]
fn types_are_listed_in_order() {
    let mut r = Registry::new("d1", 8);
    for t in ["m", "z", "a", "b.c", "b"] {
        r.register_local(t, "k", 1).unwrap();
    }
    assert_eq!(r.list_types(), vec!["a", "b", "b.c", "m", "z"]);
    let names: Vec<String> = r.all_registrations().into_iter().map(|e| e.0).collect();
    assert_eq!(names, vec!["a", "b", "b.c", "m", "z"]);
}

#[test]
fn subscribing_twice_delivers_once() {
    let mut r = Registry::new("d1", 8);
    r.register_local("t", "k", 1).unwrap();
    let (tx, mut rx) = mpsc::channel(8);
    for _ in 0..2 {
        let h = ConnHandle { id: 5, tx: tx.clone(), drop_notify: Arc::new(Notify::new()) };
        r.subscribe("t", h);
    }
    assert_eq!(r.subscriber_count("t"), 1);
    r.publish_local("t", "k", vec!["x".into()]).unwrap();
    assert!(rx.try_recv().is_ok());
    assert!(rx.try_recv().is_err());
}

#[test]
fn unsubscribed_and_removed_conns_get_nothing() {
    let mut r = Registry::new("d1", 8);
    r.register_local("t", "k", 1).unwrap();
    r.register_local("u", "k", 1).unwrap();
    let (h, mut rx) = handle(1, 8);
    r.subscribe("t", h);
    r.unsubscribe("t", 1);
    r.unsubscribe("t", 1);
    r.unsubscribe("never", 1);
    assert_eq!(r.subscriber_count("t"), 0);
    r.publish_local("t", "k", vec![]).unwrap();
    assert!(rx.try_recv().is_err());

    let (h, _rx) = handle(2, 1);
    r.subscribe("t", h);
    let (h, mut rx3) = handle(3, 1);
    r.subscribe("u", h);
    r.publish_local("t", "k", vec![]).unwrap();
    r.publish_local("t", "k", vec![]).unwrap();
    r.remove_conn(2, &vec!["t".to_string(), "x".to_string()]);
    assert_eq!(r.subscriber_count("t"), 0);
    assert!(r.take_drops(2).is_empty());
    // Another connection is untouched.
    assert_eq!(r.subscriber_count("u"), 1);
    r.publish_local("u", "k", vec![]).unwrap();
    assert!(rx3.try_recv().is_ok());
}

#[test]
fn slow_subscribers_lose_only_their_own() {
    let mut r = Registry::new("d1", 8);
    r.register_local("t", "k", 1).unwrap();
    let (slow, _rx) = handle(1, 1);
    let (fast, mut rx) = handle(2, 8);
    r.subscribe("t", slow);
    r.subscribe("t", fast);
    for _ in 0..4 {
        r.publish_local("t", "k", vec![]).unwrap();
    }
    let mut got = 0;
    while rx.try_recv().is_ok() {
        got += 1;
    }
    assert_eq!(got, 4);
    assert!(r.take_drops(2).is_empty());
    assert_eq!(r.take_drops(1), vec![("t".to_string(), 3)]);
    assert!(r.take_drops(1).is_empty(), "reported once");
}

#[test]
fn closed_queues_are_no_drops() {
    let mut r = Registry::new("d1", 8);
    r.register_local("t", "k", 1).unwrap();
    let (h, rx) = handle(1, 1);
    drop(rx);
    r.subscribe("t", h);
    r.publish_local("t", "k", vec![]).unwrap();
    assert!(r.take_drops(1).is_empty());
}

#[test]
fn outcomes_are_settled() {
    let mut r = Registry::new("d1", 8);
    r.settle(1, "t", SendOutcome::Sent);
    r.settle(1, "t", SendOutcome::Closed);
    assert!(r.take_drops(1).is_empty());
    r.settle(1, "t", SendOutcome::Full);
    r.settle(2, "t", SendOutcome::Full);
    r.settle(1, "u", SendOutcome::Full);
    r.settle(1, "t", SendOutcome::Full);
    assert_eq!(r.take_drops(1), vec![("t".to_string(), 2), ("u".to_string(), 1)]);
    assert_eq!(r.take_drops(2), vec![("t".to_string(), 1)]);
}

#[test]
fn a_drop_wakes_the_writer() {
    let mut r = Registry::new("d1", 8);
    r.register_local("t", "k", 1).unwrap();
    let (h, _rx) = handle(1, 1);
    let flag = h.drop_notify.clone();
    r.subscribe("t", h);
    r.publish_local("t", "k", vec![]).unwrap();
    r.publish_local("t", "k", vec![]).unwrap();
    let rt = tokio::runtime::Builder::new_current_thread().build().unwrap();
    rt.block_on(flag.notified());
}

#[test]
fn tables_keep_names_sorted() {
    let mut t: Table<u64> = Table::new();
    for (i, name) in ["c", "a", "b", "a"].iter().enumerate() {
        t.insert(name, i as u64);
    }
    assert_eq!(t.names(), vec!["a", "b", "c"]);
    assert_eq!(t.get("a"), Some(&3));
    assert_eq!(t.remove("b"), Some(2));
    assert_eq!(t.remove("b"), None);
    assert_eq!(t.get("b"), None);
    assert_eq!(t.len(), 2);
    assert_eq!(t.name_at(1), "c");
    assert_eq!(t.value_at(1), &0);
}
