use dht_record::codec::PersistenceError;
use dht_record::codec::parse_credential;
use dht_record::codec::parse_key_file;
use dht_record::codec::parse_record_key;
use dht_record::codec::serialize_credential;
use dht_record::codec::serialize_key_file;
use dht_record::codec::serialize_record_key;
use dht_record::events::NodeAction;
use dht_record::events::UpdateEvent;
use dht_record::events::handle_update;
use dht_record::record::KeyPair;
use dht_record::record::RecordKey;
use dht_record::watch::ChangeEvent;

#[test]
fn credential_line_has_expected_text() {
    let kp = KeyPair { public: 0x0123456789abcdef, secret: 0xfedcba9876543210 };
    let line = serialize_credential(&kp);
    assert_eq!(line, b"owner_kp = 0123456789abcdef:fedcba9876543210\n".to_vec());
}

#[test]
fn record_key_line_has_expected_text() {
    let rk = RecordKey { kind: 0x20, id: 1 };
    let line = serialize_record_key(&rk);
    assert_eq!(line, b"RecordKey = 0000000000000020:0000000000000001\n".to_vec());
}

#[test]
fn credential_round_trips() {
    let kp = KeyPair { public: 0xdeadbeef00c0ffee, secret: 0x0011223344556677 };
    assert_eq!(parse_credential(&serialize_credential(&kp)), Ok(kp));
    let zero = KeyPair { public: 0, secret: 0 };
    assert_eq!(parse_credential(&serialize_credential(&zero)), Ok(zero));
    let max = KeyPair { public: u64::MAX, secret: u64::MAX };
    assert_eq!(parse_credential(&serialize_credential(&max)), Ok(max));
}

#[test]
fn record_key_round_trips() {
    let rk = RecordKey { kind: u32::MAX, id: 0x8000000000000001 };
    assert_eq!(parse_record_key(&serialize_record_key(&rk)), Ok(rk));
}

#[test]
fn key_file_round_trips() {
    let kp = KeyPair { public: 5, secret: 6 };
    let rk = RecordKey { kind: 0, id: 7 };
    assert_eq!(parse_key_file(&serialize_key_file(&kp, &rk)), Ok((kp, rk)));
}

#[test]
fn wrong_label_is_missing_field() {
    let mut line = serialize_credential(&KeyPair { public: 1, secret: 2 });
    line[0] = b'X';
    assert_eq!(parse_credential(&line), Err(PersistenceError::MissingField));
}

#[test]
fn wrong_length_is_missing_field() {
    assert_eq!(parse_credential(&b"owner_kp = 12\n".to_vec()), Err(PersistenceError::MissingField));
    assert_eq!(parse_key_file(&Vec::new()), Err(PersistenceError::MissingField));
}

#[test]
fn bad_hex_digit_is_malformed_value() {
    let mut line = serialize_credential(&KeyPair { public: 1, secret: 2 });
    line[11] = b'g';
    assert_eq!(parse_credential(&line), Err(PersistenceError::MalformedValue));
    // upper-case hex is not the written format either
    let mut line2 = serialize_credential(&KeyPair { public: 1, secret: 2 });
    line2[11] = b'A';
    assert_eq!(parse_credential(&line2), Err(PersistenceError::MalformedValue));
}

#[test]
fn bad_separator_is_malformed_value() {
    let mut line = serialize_record_key(&RecordKey { kind: 3, id: 4 });
    line[28] = b' ';
    assert_eq!(parse_record_key(&line), Err(PersistenceError::MalformedValue));
}

#[test]
fn oversized_kind_is_malformed_value() {
    let line = b"RecordKey = 0000000100000000:0000000000000001\n".to_vec();
    assert_eq!(parse_record_key(&line), Err(PersistenceError::MalformedValue));
}

#[test]
fn attachment_ready_signals_readiness() {
    assert_eq!(
        handle_update(&UpdateEvent::Attachment { public_internet_ready: true }),
        NodeAction::SignalReady
    );
    assert_eq!(
        handle_update(&UpdateEvent::Attachment { public_internet_ready: false }),
        NodeAction::Ignore
    );
}

#[test]
fn update_events_map_to_their_actions() {
    assert_eq!(handle_update(&UpdateEvent::Log), NodeAction::Ignore);
    assert_eq!(
        handle_update(&UpdateEvent::AppMessage { message: b"hi".to_vec() }),
        NodeAction::ShowMessage
    );
    assert_eq!(handle_update(&UpdateEvent::AppCall), NodeAction::Ignore);
    assert_eq!(handle_update(&UpdateEvent::Network), NodeAction::Ignore);
    assert_eq!(handle_update(&UpdateEvent::Config), NodeAction::ShowConfig);
    assert_eq!(handle_update(&UpdateEvent::RouteChange), NodeAction::ShowRouteChange);
    let ev = ChangeEvent {
        record_key: RecordKey { kind: 0, id: 1 },
        subkey: 2,
        sequence: 1,
    };
    assert_eq!(handle_update(&UpdateEvent::ValueChange { event: ev }), NodeAction::ShowValueChange);
    assert_eq!(handle_update(&UpdateEvent::Shutdown), NodeAction::ShowShutdown);
}
