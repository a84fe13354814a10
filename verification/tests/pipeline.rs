use microwave::codec::encode_snapshot;
use microwave::orchestrator::run_pipeline;
use microwave::orchestrator::sink_key_for;
use microwave::orchestrator::PipelineAction;
use microwave::orchestrator::PipelineError;
use microwave::orchestrator::PipelineEvent;
use microwave::orchestrator::PipelineState;
use microwave::orchestrator::SnapshotLocation;
use microwave::orchestrator::step;
use microwave::runner::run_all;
use microwave::runner::RepoJob;
use microwave::sink::SinkState;
use microwave::snapshot::Snapshot;
use microwave::store::FilenodeStore;
use microwave::record::WarmupOutcome;

fn store_with(entries: &[(&[u8], &[u8])]) -> FilenodeStore {
    let mut store = FilenodeStore::new();
    for (key, payload) in entries {
        store.insert(key.to_vec(), payload.to_vec());
    }
    store
}

fn plan_of(keys: &[&[u8]]) -> Vec<Vec<u8>> {
    keys.iter().map(|k| k.to_vec()).collect()
}

#[test]
fn warmup_failure_commits_nothing() {
    let store = store_with(&[(b"k1", b"v1")]);
    let plan = plan_of(&[b"k1"]);
    let warmup = WarmupOutcome::WarmupFailed(b"store went away".to_vec());
    let location = SnapshotLocation::Blobstore;
    let mut sink = SinkState::new();

    let result = run_pipeline(1, &store, &plan, &warmup, 16, &location, &mut sink);
    match result {
        Err(PipelineError::WarmupFailed { repo, cause }) => {
            assert_eq!(repo, 1);
            assert_eq!(cause, b"store went away".to_vec());
        }
        _ => panic!("a failed warmup must propagate its cause"),
    }
    assert_eq!(sink.write_count(), 0);
    assert!(sink.read(&sink_key_for(&location, 1)).is_none());
}

#[test]
fn warmup_success_commits_exactly_once() {
    let store = store_with(&[(b"k1", b"v1")]);
    let plan = plan_of(&[b"k1"]);
    let location = SnapshotLocation::SharedLocalPath(b"/var/snapshots".to_vec());
    let mut sink = SinkState::new();

    let result = run_pipeline(1, &store, &plan, &WarmupOutcome::Warmed, 16, &location, &mut sink);
    assert!(result.is_ok());
    assert_eq!(sink.write_count(), 1);
    let written = sink.read(&sink_key_for(&location, 1)).expect("one commit must land");
    let expected = encode_snapshot(&Snapshot {
        repo: 1,
        records: vec![microwave::record::FilenodeAccessRecord {
            repo: 1,
            key: b"k1".to_vec(),
            payload: b"v1".to_vec(),
        }],
    });
    assert_eq!(written, expected);
}

#[test]
fn warmup_success_commits_even_an_empty_snapshot() {
    let store = store_with(&[]);
    let plan = plan_of(&[]);
    let location = SnapshotLocation::Blobstore;
    let mut sink = SinkState::new();

    let result = run_pipeline(4, &store, &plan, &WarmupOutcome::Warmed, 8, &location, &mut sink);
    assert!(result.is_ok());
    assert_eq!(sink.write_count(), 1);
    let written = sink.read(&sink_key_for(&location, 4)).unwrap();
    assert_eq!(written, encode_snapshot(&Snapshot { repo: 4, records: Vec::new() }));
}

#[test]
fn committing_twice_leaves_only_the_latest() {
    let location = SnapshotLocation::SharedLocalPath(b"/var/snapshots".to_vec());
    let mut sink = SinkState::new();

    let first_store = store_with(&[(b"k1", b"v1")]);
    let second_store = store_with(&[(b"k1", b"v1-new")]);
    let plan = plan_of(&[b"k1"]);

    run_pipeline(1, &first_store, &plan, &WarmupOutcome::Warmed, 8, &location, &mut sink).unwrap();
    run_pipeline(1, &second_store, &plan, &WarmupOutcome::Warmed, 8, &location, &mut sink).unwrap();

    let written = sink.read(&sink_key_for(&location, 1)).unwrap();
    let expected = encode_snapshot(&Snapshot {
        repo: 1,
        records: vec![microwave::record::FilenodeAccessRecord {
            repo: 1,
            key: b"k1".to_vec(),
            payload: b"v1-new".to_vec(),
        }],
    });
    assert_eq!(written, expected);
}

#[test]
fn captured_snapshot_reflects_what_warmup_read() {
    // Store {k1 -> v1, k2 -> v2}; warmup reads k1 twice and k2 once.
    let store = store_with(&[(b"k1", b"v1"), (b"k2", b"v2")]);
    let plan = plan_of(&[b"k1", b"k2", b"k1"]);
    let location = SnapshotLocation::Blobstore;
    let mut sink = SinkState::new();

    run_pipeline(2, &store, &plan, &WarmupOutcome::Warmed, 16, &location, &mut sink).unwrap();
    let written = sink.read(&sink_key_for(&location, 2)).unwrap();
    let decoded = microwave::codec::decode_snapshot_bytes(&written).unwrap();

    let k1_records: Vec<_> = decoded.records.iter().filter(|r| r.key == b"k1".to_vec()).collect();
    let k2_records: Vec<_> = decoded.records.iter().filter(|r| r.key == b"k2".to_vec()).collect();
    assert!(k1_records.len() >= 1);
    assert!(k1_records.iter().all(|r| r.payload == b"v1".to_vec()));
    assert!(k2_records.len() >= 1);
    assert!(k2_records.iter().all(|r| r.payload == b"v2".to_vec()));
    // No record for a key warmup never looked up.
    assert_eq!(decoded.records.len(), k1_records.len() + k2_records.len());
}

#[test]
fn saturated_channel_drops_records_but_not_the_outcome() {
    // Capacity 2, five reads produced faster than anything drains.
    let store = store_with(&[(b"a", b"1"), (b"b", b"2"), (b"c", b"3"), (b"d", b"4"), (b"e", b"5")]);
    let plan = plan_of(&[b"a", b"b", b"c", b"d", b"e"]);
    let location = SnapshotLocation::Blobstore;
    let mut sink = SinkState::new();

    let result = run_pipeline(3, &store, &plan, &WarmupOutcome::Warmed, 2, &location, &mut sink);
    assert!(result.is_ok());
    let written = sink.read(&sink_key_for(&location, 3)).unwrap();
    let decoded = microwave::codec::decode_snapshot_bytes(&written).unwrap();
    assert!(decoded.records.len() <= 5);
    assert_eq!(decoded.records.len(), 2);
    assert_eq!(decoded.records[0].key, b"a".to_vec());
    assert_eq!(decoded.records[1].key, b"b".to_vec());
}

#[test]
fn three_repos_one_failure_isolated() {
    let location = SnapshotLocation::SharedLocalPath(b"/var/snapshots".to_vec());
    let mut sink = SinkState::new();
    let jobs = vec![
        RepoJob {
            repo: 1,
            store: store_with(&[(b"a", b"1")]),
            plan: plan_of(&[b"a"]),
            warmup: WarmupOutcome::Warmed,
        },
        RepoJob {
            repo: 2,
            store: store_with(&[(b"b", b"2")]),
            plan: plan_of(&[b"b"]),
            warmup: WarmupOutcome::WarmupFailed(b"bad bookmark".to_vec()),
        },
        RepoJob {
            repo: 3,
            store: store_with(&[(b"c", b"3")]),
            plan: plan_of(&[b"c"]),
            warmup: WarmupOutcome::Warmed,
        },
    ];

    let result = run_all(&jobs, 8, &location, &mut sink);
    let aggregate = match result {
        Err(aggregate) => aggregate,
        Ok(_) => panic!("one failed repository must fail the aggregate"),
    };
    assert_eq!(aggregate.failures.len(), 1);
    match &aggregate.failures[0] {
        PipelineError::WarmupFailed { repo, cause } => {
            assert_eq!(*repo, 2);
            assert_eq!(*cause, b"bad bookmark".to_vec());
        }
    }

    // The siblings each committed exactly once; the failed one not at all.
    assert_eq!(sink.write_count(), 2);
    assert!(sink.read(&sink_key_for(&location, 1)).is_some());
    assert!(sink.read(&sink_key_for(&location, 2)).is_none());
    assert!(sink.read(&sink_key_for(&location, 3)).is_some());
}

#[test]
fn all_repos_succeeding_aggregate_succeeds() {
    let location = SnapshotLocation::Blobstore;
    let mut sink = SinkState::new();
    let jobs = vec![
        RepoJob {
            repo: 1,
            store: store_with(&[(b"a", b"1")]),
            plan: plan_of(&[b"a"]),
            warmup: WarmupOutcome::Warmed,
        },
        RepoJob {
            repo: 2,
            store: store_with(&[(b"b", b"2")]),
            plan: plan_of(&[b"b"]),
            warmup: WarmupOutcome::Warmed,
        },
    ];
    assert!(run_all(&jobs, 8, &location, &mut sink).is_ok());
    assert_eq!(sink.write_count(), 2);
}

#[test]
fn orchestration_protocol_gates_commit_on_warmup_success() {
    let (state, action) = step(PipelineState::Idle, PipelineEvent::Start);
    assert_eq!(state, PipelineState::WarmingUp);
    assert_eq!(action, PipelineAction::RunWarmupAndBuild);

    let (failed, action) = step(
        PipelineState::WarmingUp,
        PipelineEvent::WarmupAndBuildDone { warmup_ok: false },
    );
    assert_eq!(failed, PipelineState::Failed);
    assert_eq!(action, PipelineAction::ReportFailure);

    let (committing, action) = step(
        PipelineState::WarmingUp,
        PipelineEvent::WarmupAndBuildDone { warmup_ok: true },
    );
    assert_eq!(committing, PipelineState::Committing);
    assert_eq!(action, PipelineAction::Commit);

    let (committed, action) = step(committing, PipelineEvent::CommitDone { ok: true });
    assert_eq!(committed, PipelineState::Committed);
    assert_eq!(action, PipelineAction::ReportSuccess);

    let (commit_failed, action) =
        step(PipelineState::Committing, PipelineEvent::CommitDone { ok: false });
    assert_eq!(commit_failed, PipelineState::CommitFailed);
    assert_eq!(action, PipelineAction::ReportFailure);

    // Terminal states hold whatever arrives.
    let (still_failed, action) = step(PipelineState::Failed, PipelineEvent::Start);
    assert_eq!(still_failed, PipelineState::Failed);
    assert_eq!(action, PipelineAction::Hold);
}
