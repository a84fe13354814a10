use vstd::prelude::*;

use crate::codec::snapshot_bytes;
use crate::orchestrator::PipelineError;
use crate::orchestrator::PipelineErrorModel;
use crate::orchestrator::SnapshotLocation;
use crate::orchestrator::SnapshotLocationModel;
use crate::orchestrator::pipeline_snapshot;
use crate::orchestrator::run_pipeline;
use crate::orchestrator::sink_key_of;
use crate::record::WarmupOutcome;
use crate::record::WarmupOutcomeModel;
use crate::sink::SinkKeyModel;
use crate::sink::SinkState;
use crate::store::FilenodeStore;

verus! {

/// Everything one repository's pipeline needs: its identity, its store, the
/// reads its warmup performs, and how that warmup ends. The store and the
/// warmup traversal are external collaborators; here they enter as the
/// in-memory model the pipeline is verified against.
pub struct RepoJob {
    pub repo: u64,
    pub store: FilenodeStore,
    pub plan: Vec<Vec<u8>>,
    pub warmup: WarmupOutcome,
}

/// Mathematical model of a [`RepoJob`].
pub ghost struct RepoJobModel {
    pub repo: u64,
    pub store: Seq<(Seq<u8>, Seq<u8>)>,
    pub plan: Seq<Seq<u8>>,
    pub warmup: WarmupOutcomeModel,
}

impl View for RepoJob {
    type V = RepoJobModel;

    open spec fn view(&self) -> RepoJobModel {
        RepoJobModel {
            repo: self.repo,
            store: self.store.entries(),
            plan: self.plan@.map_values(|k: Vec<u8>| k@),
            warmup: self.warmup@,
        }
    }
}

/// The writes a run over these jobs commits, in order: one per repository
/// whose warmup succeeded, none for the others.
pub open spec fn runner_writes(
    jobs: Seq<RepoJobModel>,
    cap: nat,
    location: SnapshotLocationModel,
) -> Seq<(SinkKeyModel, Seq<u8>)>
    decreases jobs.len(),
{
    if jobs.len() == 0 {
        Seq::empty()
    } else {
        let prev = runner_writes(jobs.drop_last(), cap, location);
        let job = jobs.last();
        if job.warmup is Warmed {
            prev.push(
                (
                    sink_key_of(location, job.repo),
                    snapshot_bytes(pipeline_snapshot(job.repo, job.store, job.plan, cap)),
                ),
            )
        } else {
            prev
        }
    }
}

/// The per-repository failures a run over these jobs surfaces, in order.
pub open spec fn runner_failures(jobs: Seq<RepoJobModel>) -> Seq<PipelineErrorModel>
    decreases jobs.len(),
{
    if jobs.len() == 0 {
        Seq::empty()
    } else {
        let prev = runner_failures(jobs.drop_last());
        match jobs.last().warmup {
            WarmupOutcomeModel::WarmupFailed(cause) => prev.push(
                PipelineErrorModel::WarmupFailed { repo: jobs.last().repo, cause },
            ),
            WarmupOutcomeModel::Warmed => prev,
        }
    }
}

/// No failure is surfaced exactly when every repository's warmup succeeded.
pub proof fn lemma_runner_failures_empty(jobs: Seq<RepoJobModel>)
    ensures
        (runner_failures(jobs).len() == 0) <==> (forall|i: int|
            0 <= i < jobs.len() ==> (#[trigger] jobs[i].warmup) is Warmed),
    decreases jobs.len(),
{
    if jobs.len() > 0 {
        lemma_runner_failures_empty(jobs.drop_last());
        assert(forall|i: int|
            0 <= i < jobs.len() - 1 ==> jobs.drop_last()[i] == #[trigger] jobs[i]);
        assert(jobs[jobs.len() - 1] == jobs.last());
    }
}

/// One or more repositories failed; every causal error is carried, each with
/// its repository identity.
pub struct AggregateError {
    pub failures: Vec<PipelineError>,
}

impl View for AggregateError {
    type V = Seq<PipelineErrorModel>;

    open spec fn view(&self) -> Seq<PipelineErrorModel> {
        self.failures@.map_values(|e: PipelineError| e@)
    }
}

/// Run one pipeline per configured repository under the single process-wide
/// location choice. Every pipeline runs to completion — an individual
/// failure never cancels the siblings — and each repository's sink entry is
/// private to it, so the run commits exactly one write per repository whose
/// warmup succeeded, in order, and none for the others. The aggregate
/// succeeds if and only if every repository succeeded; otherwise every
/// causal error is surfaced.
pub fn run_all(
    jobs: &Vec<RepoJob>,
    capacity: usize,
    location: &SnapshotLocation,
    sink: &mut SinkState,
) -> (r: Result<(), AggregateError>)
    ensures
        final(sink).history() == old(sink).history() + runner_writes(
            jobs@.map_values(|j: RepoJob| j@),
            capacity as nat,
            location@,
        ),
        (r is Ok) == (runner_failures(jobs@.map_values(|j: RepoJob| j@)).len() == 0),
        (r is Ok) == (forall|i: int|
            0 <= i < jobs@.len() ==> (#[trigger] jobs@[i]@.warmup) is Warmed),
        r matches Err(e) ==> e@ == runner_failures(jobs@.map_values(|j: RepoJob| j@)),
{
    let ghost jobs_view = jobs@.map_values(|j: RepoJob| j@);
    let mut failures: Vec<PipelineError> = Vec::new();
    let mut i: usize = 0;
    proof {
        assert(jobs_view.take(0) =~= Seq::<RepoJobModel>::empty());
        assert(failures@.map_values(|e: PipelineError| e@) =~= Seq::<PipelineErrorModel>::empty());
        assert(old(sink).history() + Seq::<(SinkKeyModel, Seq<u8>)>::empty() =~= old(
            sink,
        ).history());
    }
    while i < jobs.len()
        invariant
            i <= jobs.len(),
            jobs_view == jobs@.map_values(|j: RepoJob| j@),
            jobs_view.len() == jobs@.len(),
            sink.history() == old(sink).history() + runner_writes(
                jobs_view.take(i as int),
                capacity as nat,
                location@,
            ),
            failures@.map_values(|e: PipelineError| e@) == runner_failures(
                jobs_view.take(i as int),
            ),
        decreases jobs.len() - i,
    {
        let ghost writes_before = runner_writes(jobs_view.take(i as int), capacity as nat, location@);
        let ghost failures_before = failures@.map_values(|e: PipelineError| e@);
        let job = &jobs[i];
        proof {
            assert(jobs@[i as int]@ == jobs_view[i as int]);
            assert(jobs_view.take(i + 1).drop_last() =~= jobs_view.take(i as int));
            assert(jobs_view.take(i + 1).last() == jobs_view[i as int]);
        }
        match run_pipeline(job.repo, &job.store, &job.plan, &job.warmup, capacity, location, sink) {
            Ok(_) => {
                proof {
                    assert(old(sink).history() + writes_before.push(
                        (
                            sink_key_of(location@, jobs_view[i as int].repo),
                            snapshot_bytes(
                                pipeline_snapshot(
                                    jobs_view[i as int].repo,
                                    jobs_view[i as int].store,
                                    jobs_view[i as int].plan,
                                    capacity as nat,
                                ),
                            ),
                        ),
                    ) =~= (old(sink).history() + writes_before).push(
                        (
                            sink_key_of(location@, jobs_view[i as int].repo),
                            snapshot_bytes(
                                pipeline_snapshot(
                                    jobs_view[i as int].repo,
                                    jobs_view[i as int].store,
                                    jobs_view[i as int].plan,
                                    capacity as nat,
                                ),
                            ),
                        ),
                    ));
                }
            },
            Err(e) => {
                failures.push(e);
                proof {
                    assert(failures@.map_values(|e: PipelineError| e@) =~= failures_before.push(
                        e@,
                    ));
                }
            },
        }
        i = i + 1;
    }
    proof {
        assert(jobs_view.take(jobs@.len() as int) =~= jobs_view);
        lemma_runner_failures_empty(jobs_view);
        assert(forall|k: int| 0 <= k < jobs@.len() ==> jobs_view[k] == (#[trigger] jobs@[k])@);
    }
    if failures.len() == 0 {
        proof {
            assert(runner_failures(jobs_view).len() == 0);
        }
        Ok(())
    } else {
        Err(AggregateError { failures })
    }
}

} // verus!
