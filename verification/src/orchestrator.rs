use vstd::prelude::*;

use crate::channel::RecordChannel;
use crate::codec::encode_snapshot;
use crate::codec::snapshot_bytes;
use crate::record::WarmupOutcome;
use crate::record::WarmupOutcomeModel;
use crate::record::clone_bytes;
use crate::sink::SinkKey;
use crate::sink::SinkKeyModel;
use crate::sink::SinkState;
use crate::snapshot::Snapshot;
use crate::snapshot::SnapshotModel;
use crate::store::FilenodeStore;
use crate::store::RecordingStore;
use crate::store::captured;

verus! {

/// The process-wide choice of where snapshots are persisted, fixed once per
/// invocation and applied uniformly to every repository of that run.
pub enum SnapshotLocation {
    SharedLocalPath(Vec<u8>),
    Blobstore,
}

/// Mathematical model of a [`SnapshotLocation`].
pub ghost enum SnapshotLocationModel {
    SharedLocalPath(Seq<u8>),
    Blobstore,
}

impl View for SnapshotLocation {
    type V = SnapshotLocationModel;

    open spec fn view(&self) -> SnapshotLocationModel {
        match self {
            SnapshotLocation::SharedLocalPath(dir) => SnapshotLocationModel::SharedLocalPath(dir@),
            SnapshotLocation::Blobstore => SnapshotLocationModel::Blobstore,
        }
    }
}

/// The sink entry one repository's snapshot goes to: a repository-private
/// file under the shared directory, or the repository's own blob-store
/// entry. Distinct repositories never share an entry.
pub open spec fn sink_key_of(location: SnapshotLocationModel, repo: u64) -> SinkKeyModel {
    match location {
        SnapshotLocationModel::SharedLocalPath(dir) => SinkKeyModel::SharedFile { dir, repo },
        SnapshotLocationModel::Blobstore => SinkKeyModel::BlobEntry { repo },
    }
}

/// Under one process-wide location choice, distinct repositories always get
/// distinct sink entries, so concurrent pipelines never contend on one
/// entry and one repository's commit can never touch another's.
pub proof fn lemma_sink_keys_private(location: SnapshotLocationModel, repo_a: u64, repo_b: u64)
    ensures
        sink_key_of(location, repo_a) == sink_key_of(location, repo_b) ==> repo_a == repo_b,
{
}

/// Build the sink key for one repository under the process-wide location.
pub fn sink_key_for(location: &SnapshotLocation, repo: u64) -> (k: SinkKey)
    ensures
        k@ == sink_key_of(location@, repo),
{
    match location {
        SnapshotLocation::SharedLocalPath(dir) => SinkKey::SharedFile {
            dir: clone_bytes(dir),
            repo,
        },
        SnapshotLocation::Blobstore => SinkKey::BlobEntry { repo },
    }
}

/// Why one repository's pipeline failed, with the repository identity
/// attached for diagnosis. A failure of the real sink's I/O is surfaced by
/// the unverified persistence edge, not here: the in-memory sink model
/// cannot fail, and every record of plain bytes is encodable.
#[derive(Debug)]
pub enum PipelineError {
    WarmupFailed { repo: u64, cause: Vec<u8> },
}

/// Mathematical model of a [`PipelineError`].
pub ghost enum PipelineErrorModel {
    WarmupFailed { repo: u64, cause: Seq<u8> },
}

impl View for PipelineError {
    type V = PipelineErrorModel;

    open spec fn view(&self) -> PipelineErrorModel {
        match self {
            PipelineError::WarmupFailed { repo, cause } => PipelineErrorModel::WarmupFailed {
                repo: *repo,
                cause: cause@,
            },
        }
    }
}

impl Snapshot {
    /// Commit this snapshot to the chosen location: encode it
    /// self-describingly and perform exactly one whole-entry write to this
    /// repository's private entry, wholly replacing any prior snapshot
    /// there.
    pub fn commit(&self, location: &SnapshotLocation, sink: &mut SinkState)
        ensures
            final(sink).history() == old(sink).history().push(
                (sink_key_of(location@, self@.repo), snapshot_bytes(self@)),
            ),
            final(sink).contents() == old(sink).contents().insert(
                sink_key_of(location@, self@.repo),
                snapshot_bytes(self@),
            ),
    {
        let bytes = encode_snapshot(self);
        let key = sink_key_for(location, self.repo);
        sink.write(key, bytes);
    }
}

/// The snapshot that one repository's pipeline builds: the records captured
/// while the decorated store serves the warmup plan into a fresh channel of
/// the given capacity.
pub open spec fn pipeline_snapshot(
    repo: u64,
    entries: Seq<(Seq<u8>, Seq<u8>)>,
    plan: Seq<Seq<u8>>,
    cap: nat,
) -> SnapshotModel {
    SnapshotModel { repo, records: captured(repo, entries, plan, cap) }
}

/// Run one repository's capture → warm → build → commit pipeline against the
/// in-memory model of its store and of the sink: decorate the store, serve
/// the warmup plan (each successful read captured, best-effort), release the
/// sending side, build the snapshot, and commit it if and only if warmup
/// succeeded. Warmup failure leaves the sink untouched and propagates the
/// causal error with the repository identity attached; warmup success
/// performs exactly one write, possibly of an empty snapshot.
pub fn run_pipeline(
    repo: u64,
    store: &FilenodeStore,
    plan: &Vec<Vec<u8>>,
    warmup: &WarmupOutcome,
    capacity: usize,
    location: &SnapshotLocation,
    sink: &mut SinkState,
) -> (r: Result<(), PipelineError>)
    ensures
        (r is Ok) == (warmup@ is Warmed),
        r is Ok ==> final(sink).history() == old(sink).history().push(
            (
                sink_key_of(location@, repo),
                snapshot_bytes(
                    pipeline_snapshot(
                        repo,
                        store.entries(),
                        plan@.map_values(|k: Vec<u8>| k@),
                        capacity as nat,
                    ),
                ),
            ),
        ),
        !(r is Ok) ==> final(sink).history() == old(sink).history(),
        warmup@ matches WarmupOutcomeModel::WarmupFailed(cause) ==> (r matches Err(e) && e@
            == PipelineErrorModel::WarmupFailed { repo, cause }),
{
    let channel = RecordChannel::new(capacity);
    let mut decorated = RecordingStore::new(repo, store, channel);
    let ghost plan_view = plan@.map_values(|k: Vec<u8>| k@);
    let mut i: usize = 0;
    proof {
        assert(plan_view.take(0) =~= Seq::<Seq<u8>>::empty());
    }
    while i < plan.len()
        invariant
            i <= plan.len(),
            plan_view == plan@.map_values(|k: Vec<u8>| k@),
            plan_view.len() == plan@.len(),
            decorated.wf(),
            decorated.repo() == repo,
            decorated.inner() == *store,
            decorated.channel().cap() == capacity as nat,
            !decorated.channel().is_closed(),
            decorated.channel().contents() == captured(
                repo,
                store.entries(),
                plan_view.take(i as int),
                capacity as nat,
            ),
        decreases plan.len() - i,
    {
        let _ = decorated.lookup(&plan[i]);
        proof {
            assert(plan_view.take(i + 1).drop_last() =~= plan_view.take(i as int));
            assert(plan_view.take(i + 1).last() == plan_view[i as int]);
            assert(plan@[i as int]@ == plan_view[i as int]);
        }
        i = i + 1;
    }
    proof {
        assert(plan_view.take(plan.len() as int) =~= plan_view);
    }
    let mut channel = decorated.into_channel();
    channel.close();
    let snapshot = Snapshot::build(repo, channel);
    match warmup {
        WarmupOutcome::Warmed => {
            snapshot.commit(location, sink);
            Ok(())
        },
        WarmupOutcome::WarmupFailed(cause) => Err(
            PipelineError::WarmupFailed { repo, cause: clone_bytes(cause) },
        ),
    }
}

/// What a successful pipeline commits is decodable by an independent reader:
/// decoding the committed bytes recovers exactly the captured snapshot. The
/// length bounds hold of every store and plan built from in-memory vectors.
pub proof fn lemma_committed_snapshot_decodes(
    repo: u64,
    entries: Seq<(Seq<u8>, Seq<u8>)>,
    plan: Seq<Seq<u8>>,
    cap: nat,
)
    requires
        plan.len() <= u64::MAX,
        forall|i: int| 0 <= i < entries.len() ==> (#[trigger] entries[i]).1.len() <= u64::MAX,
        forall|i: int| 0 <= i < plan.len() ==> (#[trigger] plan[i]).len() <= u64::MAX,
    ensures
        crate::codec::decode_snapshot(snapshot_bytes(pipeline_snapshot(repo, entries, plan, cap)))
            == Some(pipeline_snapshot(repo, entries, plan, cap)),
{
    let snap = pipeline_snapshot(repo, entries, plan, cap);
    crate::store::lemma_capture_fidelity(repo, entries, plan, cap);
    crate::store::lemma_captured_bounded(repo, entries, plan, cap);
    assert forall|i: int| 0 <= i < snap.records.len() implies crate::codec::record_wf(
        #[trigger] snap.records[i],
    ) by {
        let r = snap.records[i];
        let j = choose|j: int| 0 <= j < plan.len() && plan[j] == r.key;
        crate::store::lemma_store_lookup_is_stored(entries, r.key);
        let k = choose|k: int|
            0 <= k < entries.len() && (#[trigger] entries[k]).0 == r.key && entries[k].1
                == r.payload;
        assert(entries[k].1.len() <= u64::MAX);
    }
    crate::codec::lemma_snapshot_round_trip(snap);
}

/// Control state of one repository's pipeline.
#[derive(Clone, Copy, Debug, PartialEq, Eq, Structural)]
pub enum PipelineState {
    Idle,
    WarmingUp,
    Failed,
    Committing,
    Committed,
    CommitFailed,
}

/// What the pipeline's driver reports back to the orchestration.
#[derive(Clone, Copy, Debug, PartialEq, Eq, Structural)]
pub enum PipelineEvent {
    Start,
    WarmupAndBuildDone { warmup_ok: bool },
    CommitDone { ok: bool },
}

/// What the orchestration asks its driver to do next.
#[derive(Clone, Copy, Debug, PartialEq, Eq, Structural)]
pub enum PipelineAction {
    RunWarmupAndBuild,
    Commit,
    ReportFailure,
    ReportSuccess,
    Hold,
}

/// The orchestration protocol of one repository's pipeline:
/// `Idle → WarmingUp → {Failed | Committing → {Committed | CommitFailed}}`,
/// with `Failed`, `Committed` and `CommitFailed` terminal. A mismatched
/// event leaves the state unchanged and asks for nothing.
pub open spec fn step_spec(state: PipelineState, event: PipelineEvent) -> (
    PipelineState,
    PipelineAction,
) {
    match (state, event) {
        (PipelineState::Idle, PipelineEvent::Start) => (
            PipelineState::WarmingUp,
            PipelineAction::RunWarmupAndBuild,
        ),
        (PipelineState::WarmingUp, PipelineEvent::WarmupAndBuildDone { warmup_ok }) => if warmup_ok {
            (PipelineState::Committing, PipelineAction::Commit)
        } else {
            (PipelineState::Failed, PipelineAction::ReportFailure)
        },
        (PipelineState::Committing, PipelineEvent::CommitDone { ok }) => if ok {
            (PipelineState::Committed, PipelineAction::ReportSuccess)
        } else {
            (PipelineState::CommitFailed, PipelineAction::ReportFailure)
        },
        _ => (state, PipelineAction::Hold),
    }
}

/// Take one orchestration step.
pub fn step(state: PipelineState, event: PipelineEvent) -> (r: (PipelineState, PipelineAction))
    ensures
        r == step_spec(state, event),
{
    match (state, event) {
        (PipelineState::Idle, PipelineEvent::Start) => (
            PipelineState::WarmingUp,
            PipelineAction::RunWarmupAndBuild,
        ),
        (PipelineState::WarmingUp, PipelineEvent::WarmupAndBuildDone { warmup_ok }) => if warmup_ok {
            (PipelineState::Committing, PipelineAction::Commit)
        } else {
            (PipelineState::Failed, PipelineAction::ReportFailure)
        },
        (PipelineState::Committing, PipelineEvent::CommitDone { ok }) => if ok {
            (PipelineState::Committed, PipelineAction::ReportSuccess)
        } else {
            (PipelineState::CommitFailed, PipelineAction::ReportFailure)
        },
        _ => (state, PipelineAction::Hold),
    }
}

/// Commit gating over the protocol: a commit is asked for, and the
/// committing state entered, only on the step that confirms warmup success;
/// and only the commit step can reach the committed state.
pub proof fn lemma_commit_gating(state: PipelineState, event: PipelineEvent)
    ensures
        step_spec(state, event).1 == PipelineAction::Commit ==> (state == PipelineState::WarmingUp
            && event == (PipelineEvent::WarmupAndBuildDone { warmup_ok: true })),
        (step_spec(state, event).0 == PipelineState::Committing && state
            != PipelineState::Committing) ==> (state == PipelineState::WarmingUp && event == (
        PipelineEvent::WarmupAndBuildDone { warmup_ok: true })),
        (step_spec(state, event).0 == PipelineState::Committed && state
            != PipelineState::Committed) ==> (state == PipelineState::Committing && event == (
        PipelineEvent::CommitDone { ok: true })),
{
}

} // verus!
