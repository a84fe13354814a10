use microwave::channel::RecordChannel;
use microwave::codec::decode_snapshot_bytes;
use microwave::codec::encode_snapshot;
use microwave::mcrouter::ConfigurationError;
use microwave::mcrouter::Environment;
use microwave::mcrouter::McrouterArgExtension;
use microwave::mcrouter::McrouterArgs;
use microwave::record::FilenodeAccessRecord;
use microwave::record::LookupResult;
use microwave::sink::SinkKey;
use microwave::sink::SinkState;
use microwave::snapshot::Snapshot;
use microwave::store::FilenodeStore;
use microwave::store::RecordingStore;

fn record(repo: u64, key: &[u8], payload: &[u8]) -> FilenodeAccessRecord {
    FilenodeAccessRecord { repo, key: key.to_vec(), payload: payload.to_vec() }
}

#[test]
fn channel_delivers_in_arrival_order() {
    let mut ch = RecordChannel::new(4);
    assert!(ch.try_send(record(1, b"a", b"pa")));
    assert!(ch.try_send(record(1, b"b", b"pb")));
    assert_eq!(ch.len(), 2);
    let first = ch.try_recv().unwrap();
    assert_eq!(first.key, b"a".to_vec());
    assert_eq!(first.payload, b"pa".to_vec());
    let second = ch.try_recv().unwrap();
    assert_eq!(second.key, b"b".to_vec());
    assert!(ch.try_recv().is_none());
}

#[test]
fn channel_drops_when_full() {
    let mut ch = RecordChannel::new(2);
    assert!(ch.try_send(record(1, b"a", b"1")));
    assert!(ch.try_send(record(1, b"b", b"2")));
    assert!(!ch.try_send(record(1, b"c", b"3")));
    assert_eq!(ch.len(), 2);
    let first = ch.try_recv().unwrap();
    assert_eq!(first.key, b"a".to_vec());
}

#[test]
fn channel_drops_after_close() {
    let mut ch = RecordChannel::new(4);
    assert!(ch.try_send(record(1, b"a", b"1")));
    ch.close();
    assert!(!ch.try_send(record(1, b"b", b"2")));
    assert_eq!(ch.len(), 1);
}

#[test]
fn store_lookup_hits_and_misses() {
    let mut store = FilenodeStore::new();
    store.insert(b"k1".to_vec(), b"v1".to_vec());
    store.insert(b"k2".to_vec(), b"v2".to_vec());
    match store.lookup(&b"k1".to_vec()) {
        LookupResult::Found(payload) => assert_eq!(payload, b"v1".to_vec()),
        _ => panic!("expected a hit"),
    }
    match store.lookup(&b"missing".to_vec()) {
        LookupResult::NotFound => {}
        _ => panic!("expected a miss"),
    }
}

#[test]
fn recording_store_is_transparent_and_captures() {
    let mut store = FilenodeStore::new();
    store.insert(b"k1".to_vec(), b"v1".to_vec());
    let mut decorated = RecordingStore::new(7, &store, RecordChannel::new(4));

    // A hit comes back exactly as the wrapped store returns it.
    match decorated.lookup(&b"k1".to_vec()) {
        LookupResult::Found(payload) => assert_eq!(payload, b"v1".to_vec()),
        _ => panic!("expected a hit"),
    }
    // A miss comes back unchanged too, and captures nothing.
    match decorated.lookup(&b"nope".to_vec()) {
        LookupResult::NotFound => {}
        _ => panic!("expected a miss"),
    }

    let mut ch = decorated.into_channel();
    assert_eq!(ch.len(), 1);
    let captured = ch.try_recv().unwrap();
    assert_eq!(captured.repo, 7);
    assert_eq!(captured.key, b"k1".to_vec());
    assert_eq!(captured.payload, b"v1".to_vec());
}

#[test]
fn recording_store_transparent_when_channel_full() {
    let mut store = FilenodeStore::new();
    store.insert(b"k1".to_vec(), b"v1".to_vec());
    let mut decorated = RecordingStore::new(7, &store, RecordChannel::new(0));
    // The channel has no room at all; the result is still the store's.
    match decorated.lookup(&b"k1".to_vec()) {
        LookupResult::Found(payload) => assert_eq!(payload, b"v1".to_vec()),
        _ => panic!("expected a hit"),
    }
    let mut ch = decorated.into_channel();
    assert_eq!(ch.len(), 0);
    assert!(ch.try_recv().is_none());
}

#[test]
fn errors_and_misses_pass_through_uncaptured() {
    let mut ch = RecordChannel::new(4);

    let miss = microwave::store::record_lookup_result(7, &b"k".to_vec(), LookupResult::NotFound, &mut ch);
    assert!(matches!(miss, LookupResult::NotFound));
    assert_eq!(ch.len(), 0);

    let error = microwave::store::record_lookup_result(
        7,
        &b"k".to_vec(),
        LookupResult::LookupError(b"store unavailable".to_vec()),
        &mut ch,
    );
    match error {
        LookupResult::LookupError(cause) => assert_eq!(cause, b"store unavailable".to_vec()),
        _ => panic!("the store's error must be propagated unmodified"),
    }
    assert_eq!(ch.len(), 0);

    let hit = microwave::store::record_lookup_result(
        7,
        &b"k".to_vec(),
        LookupResult::Found(b"v".to_vec()),
        &mut ch,
    );
    match hit {
        LookupResult::Found(payload) => assert_eq!(payload, b"v".to_vec()),
        _ => panic!("a hit must come back unchanged"),
    }
    assert_eq!(ch.len(), 1);
}

#[test]
fn build_drains_everything_in_order() {
    let mut ch = RecordChannel::new(4);
    assert!(ch.try_send(record(3, b"a", b"1")));
    assert!(ch.try_send(record(3, b"b", b"2")));
    ch.close();
    let snapshot = Snapshot::build(3, ch);
    assert_eq!(snapshot.repo, 3);
    assert_eq!(snapshot.records.len(), 2);
    assert_eq!(snapshot.records[0].key, b"a".to_vec());
    assert_eq!(snapshot.records[1].key, b"b".to_vec());
}

#[test]
fn encode_empty_snapshot_exact_bytes() {
    let snapshot = Snapshot { repo: 5, records: Vec::new() };
    let bytes = encode_snapshot(&snapshot);
    let mut expected = vec![5u8, 0, 0, 0, 0, 0, 0, 0];
    expected.extend_from_slice(&[0u8; 8]);
    assert_eq!(bytes, expected);
}

#[test]
fn encode_one_record_exact_bytes() {
    let snapshot = Snapshot { repo: 258, records: vec![record(258, b"k", b"vv")] };
    let bytes = encode_snapshot(&snapshot);
    let mut expected: Vec<u8> = Vec::new();
    expected.extend_from_slice(&[2, 1, 0, 0, 0, 0, 0, 0]); // repo 258
    expected.extend_from_slice(&[1, 0, 0, 0, 0, 0, 0, 0]); // one record
    expected.extend_from_slice(&[2, 1, 0, 0, 0, 0, 0, 0]); // record repo
    expected.extend_from_slice(&[1, 0, 0, 0, 0, 0, 0, 0]); // key length
    expected.extend_from_slice(b"k");
    expected.extend_from_slice(&[2, 0, 0, 0, 0, 0, 0, 0]); // payload length
    expected.extend_from_slice(b"vv");
    assert_eq!(bytes, expected);
}

#[test]
fn snapshot_round_trips_through_bytes() {
    let snapshot = Snapshot {
        repo: u64::MAX,
        records: vec![record(u64::MAX, b"some/path", b"metadata"), record(u64::MAX, b"", b"")],
    };
    let bytes = encode_snapshot(&snapshot);
    let decoded = decode_snapshot_bytes(&bytes).expect("a written snapshot must decode");
    assert_eq!(decoded.repo, snapshot.repo);
    assert_eq!(decoded.records.len(), 2);
    assert_eq!(decoded.records[0].repo, u64::MAX);
    assert_eq!(decoded.records[0].key, b"some/path".to_vec());
    assert_eq!(decoded.records[0].payload, b"metadata".to_vec());
    assert_eq!(decoded.records[1].key, Vec::<u8>::new());
    assert_eq!(decoded.records[1].payload, Vec::<u8>::new());
}

#[test]
fn decode_refuses_truncated_and_trailing_bytes() {
    let snapshot = Snapshot { repo: 9, records: vec![record(9, b"k", b"v")] };
    let bytes = encode_snapshot(&snapshot);

    let mut truncated = bytes.clone();
    truncated.pop();
    assert!(decode_snapshot_bytes(&truncated).is_none());

    let mut trailing = bytes.clone();
    trailing.push(0);
    assert!(decode_snapshot_bytes(&trailing).is_none());

    // Two snapshots back to back never decode as one: an overwritten
    // location can hold the latest snapshot only, never a concatenation.
    let mut concatenated = bytes.clone();
    concatenated.extend_from_slice(&bytes);
    assert!(decode_snapshot_bytes(&concatenated).is_none());

    assert!(decode_snapshot_bytes(&vec![1, 2, 3]).is_none());
}

#[test]
fn sink_overwrite_keeps_only_latest() {
    let mut sink = SinkState::new();
    let key = SinkKey::SharedFile { dir: b"/tmp/snapshots".to_vec(), repo: 1 };
    let key_again = SinkKey::SharedFile { dir: b"/tmp/snapshots".to_vec(), repo: 1 };
    sink.write(key, b"first".to_vec());
    sink.write(key_again, b"second".to_vec());
    let read_key = SinkKey::SharedFile { dir: b"/tmp/snapshots".to_vec(), repo: 1 };
    assert_eq!(sink.read(&read_key).unwrap(), b"second".to_vec());
    assert_eq!(sink.write_count(), 2);
}

#[test]
fn sink_keys_are_private_per_repository() {
    let mut sink = SinkState::new();
    sink.write(SinkKey::BlobEntry { repo: 1 }, b"one".to_vec());
    sink.write(SinkKey::BlobEntry { repo: 2 }, b"two".to_vec());
    assert_eq!(sink.read(&SinkKey::BlobEntry { repo: 1 }).unwrap(), b"one".to_vec());
    assert_eq!(sink.read(&SinkKey::BlobEntry { repo: 2 }).unwrap(), b"two".to_vec());
    assert!(sink.read(&SinkKey::BlobEntry { repo: 3 }).is_none());
    assert!(sink.read(&SinkKey::SharedFile { dir: Vec::new(), repo: 1 }).is_none());
}

#[test]
fn mcrouter_flag_off_changes_nothing() {
    let args = McrouterArgs { enable_mcrouter: false };
    let mut env = Environment {
        local_rate_limit_proxy_available: true,
        prefer_local_rate_limit_proxy: false,
    };
    assert!(McrouterArgExtension.process_args(&args, &mut env).is_ok());
    assert!(!env.prefer_local_rate_limit_proxy);
}

#[test]
fn mcrouter_flag_on_sets_preference() {
    let args = McrouterArgs { enable_mcrouter: true };
    let mut env = Environment {
        local_rate_limit_proxy_available: true,
        prefer_local_rate_limit_proxy: false,
    };
    assert!(McrouterArgExtension.process_args(&args, &mut env).is_ok());
    assert!(env.prefer_local_rate_limit_proxy);
}

#[test]
fn mcrouter_flag_on_unsupported_host_is_refused() {
    let args = McrouterArgs { enable_mcrouter: true };
    let mut env = Environment {
        local_rate_limit_proxy_available: false,
        prefer_local_rate_limit_proxy: false,
    };
    assert_eq!(
        McrouterArgExtension.process_args(&args, &mut env),
        Err(ConfigurationError::RateLimitProxyUnavailable)
    );
    assert!(!env.prefer_local_rate_limit_proxy);
}
