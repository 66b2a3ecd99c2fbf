use dht_record::record::KeyPair;
use dht_record::record::derive_record_key;
use dht_record::schema::Member;
use dht_record::schema::Schema;
use dht_record::schema::SchemaError;
use dht_record::store::DhtError;
use dht_record::store::RecordStore;
use dht_record::sync::RetryPolicy;
use dht_record::sync::WriteCandidate;
use dht_record::sync::reconcile_candidates;
use dht_record::watch::ChangeEvent;
use dht_record::watch::Subscriber;

fn creator() -> KeyPair {
    KeyPair { public: 1, secret: 2 }
}

fn member() -> KeyPair {
    KeyPair { public: 10, secret: 11 }
}

fn outsider() -> KeyPair {
    KeyPair { public: 99, secret: 98 }
}

/// Two exclusive subkeys plus one member with two subkeys: four in all.
fn demo_schema() -> Schema {
    Schema {
        exclusive_count: 2,
        members: vec![Member { member_id: member().public, subkey_count: 2 }],
    }
}

#[test]
fn schema_accepts_valid() {
    assert_eq!(demo_schema().validate(), Ok(()));
}

#[test]
fn schema_rejects_zero_member_count() {
    let s = Schema {
        exclusive_count: 1,
        members: vec![Member { member_id: 7, subkey_count: 0 }],
    };
    assert_eq!(s.validate(), Err(SchemaError::InvalidMemberCount));
}

#[test]
fn schema_rejects_overflow() {
    let s = Schema {
        exclusive_count: 500,
        members: vec![Member { member_id: 7, subkey_count: 13 }],
    };
    assert_eq!(s.validate(), Err(SchemaError::SchemaOverflow));
}

#[test]
fn schema_rejects_duplicate_members() {
    let s = Schema {
        exclusive_count: 0,
        members: vec![
            Member { member_id: 7, subkey_count: 1 },
            Member { member_id: 7, subkey_count: 2 },
        ],
    };
    assert_eq!(s.validate(), Err(SchemaError::DuplicateMember));
}

#[test]
fn schema_total_counts_exclusive_and_members() {
    let s = demo_schema();
    assert_eq!(s.total_subkeys_count(), 4);
}

#[test]
fn record_key_derivation_is_deterministic() {
    let k1 = derive_record_key(0, &demo_schema(), 42);
    let k2 = derive_record_key(0, &demo_schema(), 42);
    assert_eq!(k1, k2);
}

#[test]
fn member_write_in_own_range_returns_sequence_one() {
    let mut store = RecordStore::new();
    let key = store.create_record(0, demo_schema(), creator(), 42).unwrap();
    let seq = store.set_value(key, 2, b"hello".to_vec(), member()).unwrap();
    assert_eq!(seq, 1);
    let v = store.get_value(key, 2).unwrap().unwrap();
    assert_eq!(v.data, b"hello".to_vec());
    assert_eq!(v.sequence, 1);
    assert_eq!(v.writer, member().public);
}

#[test]
fn sequence_increases_by_one_per_write() {
    let mut store = RecordStore::new();
    let key = store.create_record(0, demo_schema(), creator(), 42).unwrap();
    assert_eq!(store.set_value(key, 2, b"a".to_vec(), member()).unwrap(), 1);
    assert_eq!(store.set_value(key, 2, b"b".to_vec(), member()).unwrap(), 2);
    assert_eq!(store.set_value(key, 2, b"c".to_vec(), member()).unwrap(), 3);
    // an independent subkey has its own counter
    assert_eq!(store.set_value(key, 0, b"x".to_vec(), creator()).unwrap(), 1);
}

#[test]
fn get_value_is_idempotent_without_writes() {
    let mut store = RecordStore::new();
    let key = store.create_record(0, demo_schema(), creator(), 42).unwrap();
    store.set_value(key, 3, b"stable".to_vec(), member()).unwrap();
    let first = store.get_value(key, 3).unwrap();
    let second = store.get_value(key, 3).unwrap();
    assert_eq!(first, second);
    assert_eq!(store.get_value(key, 1).unwrap(), None);
}

#[test]
fn member_cannot_write_exclusive_range() {
    let mut store = RecordStore::new();
    let key = store.create_record(0, demo_schema(), creator(), 42).unwrap();
    let r = store.set_value(key, 0, b"nope".to_vec(), member());
    assert_eq!(
        r,
        Err(DhtError::UnauthorizedWriter {
            record_key: key,
            subkey: Some(0),
            credential_id: member().public,
        })
    );
}

#[test]
fn outsider_never_writes_any_subkey() {
    let mut store = RecordStore::new();
    let key = store.create_record(0, demo_schema(), creator(), 42).unwrap();
    for subkey in 0u32..4 {
        let r = store.set_value(key, subkey, b"nope".to_vec(), outsider());
        assert_eq!(
            r,
            Err(DhtError::UnauthorizedWriter {
                record_key: key,
                subkey: Some(subkey),
                credential_id: outsider().public,
            })
        );
    }
}

#[test]
fn creator_cannot_write_member_range() {
    let mut store = RecordStore::new();
    let key = store.create_record(0, demo_schema(), creator(), 42).unwrap();
    let r = store.set_value(key, 3, b"nope".to_vec(), creator());
    assert!(matches!(r, Err(DhtError::UnauthorizedWriter { .. })));
}

#[test]
fn subkey_out_of_range_is_reported() {
    let mut store = RecordStore::new();
    let key = store.create_record(0, demo_schema(), creator(), 42).unwrap();
    let r = store.set_value(key, 4, b"far".to_vec(), creator());
    assert_eq!(r, Err(DhtError::SubkeyOutOfRange { record_key: key, subkey: 4 }));
}

#[test]
fn unknown_record_is_reported() {
    let mut store = RecordStore::new();
    let key = store.create_record(0, demo_schema(), creator(), 42).unwrap();
    let mut other = RecordStore::new();
    let r = other.set_value(key, 0, b"x".to_vec(), creator());
    assert_eq!(r, Err(DhtError::RecordNotFound { record_key: key }));
}

#[test]
fn open_record_checks_credential_against_schema() {
    let mut store = RecordStore::new();
    let key = store.create_record(0, demo_schema(), creator(), 42).unwrap();
    let h = store.open_record(key, Some(member())).unwrap();
    assert_eq!(h.writer, Some(member().public));
    let read_only = store.open_record(key, None).unwrap();
    assert_eq!(read_only.writer, None);
    let r = store.open_record(key, Some(outsider()));
    assert_eq!(
        r,
        Err(DhtError::UnauthorizedWriter {
            record_key: key,
            subkey: None,
            credential_id: outsider().public,
        })
    );
}

#[test]
fn inspect_retries_until_network_ready() {
    let mut store = RecordStore::new();
    let key = store.create_record(0, demo_schema(), creator(), 42).unwrap();
    store.set_value(key, 2, b"v".to_vec(), member()).unwrap();

    let policy = RetryPolicy { max_attempts: 3, backoff_ms: 500 };
    let mut attempt: u32 = 0;
    let report = loop {
        match store.inspect(key) {
            Ok(r) => break r,
            Err(DhtError::TryAgain { .. }) => match policy.next_delay(attempt) {
                Some(delay) => {
                    assert_eq!(delay, 500);
                    attempt += 1;
                    if attempt == 2 {
                        // the attachment layer reports the record reachable
                        store.set_network_ready(key, true).unwrap();
                    }
                }
                None => panic!("retries exhausted"),
            },
            Err(e) => panic!("unexpected error: {e:?}"),
        }
    };
    assert_eq!(attempt, 2);
    assert_eq!(report.subkey_seqs, vec![0, 0, 1, 0]);
    assert!(report.is_fully_replicated);
}

#[test]
fn watch_unavailable_before_ready() {
    let mut store = RecordStore::new();
    let key = store.create_record(0, demo_schema(), creator(), 42).unwrap();
    let h = store.open_record(key, None).unwrap();
    let r = store.watch(&h, 2, 3);
    assert_eq!(r, Err(DhtError::WatchUnavailable { record_key: key }));
}

#[test]
fn watch_delivers_one_notification_per_unique_change() {
    let mut store = RecordStore::new();
    let key = store.create_record(0, demo_schema(), creator(), 42).unwrap();
    store.set_network_ready(key, true).unwrap();
    let h = store.open_record(key, Some(member())).unwrap();
    let sid = store.watch(&h, 2, 3).unwrap();
    store.activate_watch(sid);

    let seq = store.set_value(key, 2, b"change".to_vec(), member()).unwrap();
    // a write outside the subscribed range is not delivered
    store.set_value(key, 0, b"quiet".to_vec(), creator()).unwrap();

    let events = store.take_events(sid);
    assert_eq!(events.len(), 1);
    let ev = events[0];
    assert_eq!(ev, ChangeEvent { record_key: key, subkey: 2, sequence: seq });

    // the transport may deliver the same event twice; dedupe keeps one
    let mut reader = Subscriber::new();
    assert!(reader.accept(ev));
    assert!(!reader.accept(ev));
    // a genuinely new (subkey, sequence) pair is fresh again
    let seq2 = store.set_value(key, 2, b"again".to_vec(), member()).unwrap();
    let ev2 = ChangeEvent { record_key: key, subkey: 2, sequence: seq2 };
    assert!(reader.accept(ev2));
}

#[test]
fn registered_watch_delivers_nothing_until_activated() {
    let mut store = RecordStore::new();
    let key = store.create_record(0, demo_schema(), creator(), 42).unwrap();
    store.set_network_ready(key, true).unwrap();
    let h = store.open_record(key, Some(member())).unwrap();
    let sid = store.watch(&h, 2, 3).unwrap();
    store.set_value(key, 2, b"early".to_vec(), member()).unwrap();
    assert_eq!(store.take_events(sid).len(), 0);
}

#[test]
fn watch_queue_drops_oldest_when_full() {
    let mut store = RecordStore::new();
    let key = store.create_record(0, demo_schema(), creator(), 42).unwrap();
    store.set_network_ready(key, true).unwrap();
    let h = store.open_record(key, Some(member())).unwrap();
    let sid = store.watch(&h, 2, 2).unwrap();
    store.activate_watch(sid);
    for _ in 0..17 {
        store.set_value(key, 2, b"v".to_vec(), member()).unwrap();
    }
    let events = store.take_events(sid);
    assert_eq!(events.len(), 16);
    // sequence 1 was the oldest pending event and was dropped
    assert_eq!(events[0].sequence, 2);
    assert_eq!(events[15].sequence, 17);
}

#[test]
fn cancel_watch_is_idempotent() {
    let mut store = RecordStore::new();
    let key = store.create_record(0, demo_schema(), creator(), 42).unwrap();
    store.set_network_ready(key, true).unwrap();
    let h = store.open_record(key, Some(member())).unwrap();
    let sid = store.watch(&h, 2, 3).unwrap();
    store.activate_watch(sid);
    store.cancel_watch(sid);
    store.cancel_watch(sid);
    store.set_value(key, 2, b"after".to_vec(), member()).unwrap();
    assert_eq!(store.take_events(sid).len(), 0);
}

#[test]
fn release_handle_expires_its_subscriptions() {
    let mut store = RecordStore::new();
    let key = store.create_record(0, demo_schema(), creator(), 42).unwrap();
    store.set_network_ready(key, true).unwrap();
    let h = store.open_record(key, Some(member())).unwrap();
    let sid = store.watch(&h, 0, 3).unwrap();
    store.activate_watch(sid);
    store.release_handle(&h);
    store.set_value(key, 2, b"after close".to_vec(), member()).unwrap();
    assert_eq!(store.take_events(sid).len(), 0);
}

#[test]
fn reconcile_same_sequence_picks_later_timestamp() {
    let a = WriteCandidate { data: b"a".to_vec(), sequence: 1, writer: 10, timestamp: 5 };
    let b = WriteCandidate { data: b"b".to_vec(), sequence: 1, writer: 10, timestamp: 9 };
    let w1 = reconcile_candidates(a.clone(), b.clone());
    assert_eq!(w1, b);
    // rerunning with the same candidates yields the same winner
    let w2 = reconcile_candidates(a.clone(), b.clone());
    assert_eq!(w2, w1);
    // either presentation order crowns the same winner
    let w3 = reconcile_candidates(b.clone(), a.clone());
    assert_eq!(w3, w1);
}

#[test]
fn reconcile_higher_sequence_wins() {
    let a = WriteCandidate { data: b"new".to_vec(), sequence: 4, writer: 10, timestamp: 1 };
    let b = WriteCandidate { data: b"old".to_vec(), sequence: 3, writer: 10, timestamp: 9 };
    assert_eq!(reconcile_candidates(a.clone(), b), a);
}

#[test]
fn reconcile_subkey_applies_only_newer_candidates() {
    let mut store = RecordStore::new();
    let key = store.create_record(0, demo_schema(), creator(), 42).unwrap();
    store.set_value(key, 2, b"local".to_vec(), member()).unwrap();

    let stale = WriteCandidate { data: b"stale".to_vec(), sequence: 1, writer: member().public, timestamp: 7 };
    assert_eq!(store.reconcile_subkey(key, 2, stale), Ok(false));
    assert_eq!(store.get_value(key, 2).unwrap().unwrap().data, b"local".to_vec());

    let newer = WriteCandidate { data: b"remote".to_vec(), sequence: 5, writer: member().public, timestamp: 7 };
    assert_eq!(store.reconcile_subkey(key, 2, newer), Ok(true));
    let v = store.get_value(key, 2).unwrap().unwrap();
    assert_eq!(v.data, b"remote".to_vec());
    assert_eq!(v.sequence, 5);

    let forged = WriteCandidate { data: b"evil".to_vec(), sequence: 9, writer: outsider().public, timestamp: 7 };
    assert!(matches!(
        store.reconcile_subkey(key, 2, forged),
        Err(DhtError::UnauthorizedWriter { .. })
    ));
}

#[test]
fn create_record_is_idempotent_for_same_parameters() {
    let mut store = RecordStore::new();
    let k1 = store.create_record(0, demo_schema(), creator(), 42).unwrap();
    store.set_value(k1, 2, b"kept".to_vec(), member()).unwrap();
    let k2 = store.create_record(0, demo_schema(), creator(), 42).unwrap();
    assert_eq!(k1, k2);
    assert_eq!(store.get_value(k1, 2).unwrap().unwrap().data, b"kept".to_vec());
}

#[test]
fn create_record_rejects_invalid_schema() {
    let mut store = RecordStore::new();
    let bad = Schema {
        exclusive_count: 0,
        members: vec![Member { member_id: 7, subkey_count: 0 }],
    };
    assert_eq!(store.create_record(0, bad, creator(), 1), Err(SchemaError::InvalidMemberCount));
}

#[test]
fn retry_policy_caps_attempts() {
    let policy = RetryPolicy { max_attempts: 2, backoff_ms: 500 };
    assert_eq!(policy.next_delay(0), Some(500));
    assert_eq!(policy.next_delay(1), Some(500));
    assert_eq!(policy.next_delay(2), None);
}
