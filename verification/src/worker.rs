//! The worker's side of the feedback loop: what one executed input does to the
//! worker's cache and to the shared ledger.  Executing the target and taking
//! the ledger's lock are the caller's part; every decision is made here.

use vstd::prelude::*;
use std::sync::Arc;
use crate::field::Felt;
use crate::model::{lemma_apply_keeps_shared, Op, State};
use crate::stats::{share, CoverageOutcome, Statistics};

verus! {

/// A fault of the fuzzer itself, which ends the worker.
#[derive(Clone, Copy, Debug, PartialEq, Eq, Structural)]
pub enum InternalError {
    /// The edge at this position of a trace has an offset that does not fit in
    /// 32 bits.
    OffsetOutOfRange(usize),
}

/// What the target did with one input.
pub enum Execution {
    /// It ran to the end; the edges it took, as pairs of source and
    /// destination offset, in the order in which it took them.
    Completed(Vec<(usize, usize)>),
    /// It failed; the text that the failure renders to.
    Failed(String),
}

/// One input together with what the target did with it.
pub struct Run {
    pub input: Arc<Vec<Felt>>,
    pub execution: Execution,
}

/// The report of a failure signature that the ledger had not seen.
pub struct Diagnostic {
    pub worker_id: usize,
    pub input: Arc<Vec<Felt>>,
    pub detail: String,
}

/// What processing one run came to.
pub enum Processed {
    /// The run completed; what committing its coverage found.
    Covered(CoverageOutcome),
    /// The run failed; the report, where the ledger had not seen the
    /// failure's signature.
    Crashed(Option<Diagnostic>),
}

/// A worker: its number and its cache of the ledger.
pub struct Worker {
    id: usize,
    local: Statistics,
}

/// A worker's cache and the shared ledger, side by side.
pub struct Pair {
    pub local: State,
    pub shared: State,
}

/// Whether both offsets of the edge fit in 32 bits.
pub open spec fn edge_fits(edge: (usize, usize)) -> bool {
    edge.0 <= u32::MAX && edge.1 <= u32::MAX
}

/// Whether every edge among the first `n` of the trace fits.
pub open spec fn fits_up_to(trace: Seq<(usize, usize)>, n: int) -> bool {
    forall|i: int| 0 <= i < n ==> edge_fits(#[trigger] trace[i])
}

/// Whether every edge of the trace fits.
pub open spec fn fits(trace: Seq<(usize, usize)>) -> bool {
    fits_up_to(trace, trace.len() as int)
}

/// The coverage fingerprint of a trace: its edges, offsets narrowed to 32
/// bits.
pub open spec fn as_fingerprint(trace: Seq<(usize, usize)>) -> Seq<(u32, u32)> {
    Seq::new(trace.len(), |i: int| (trace[i].0 as u32, trace[i].1 as u32))
}

/// Cache and ledger after a successful execution was processed: the cache
/// looks at the ledger; a fingerprint that the cache then holds changes
/// nothing more; one that it does not hold is noted in the cache and
/// committed to the ledger; the case is counted on both sides.
pub open spec fn after_success(p: Pair, fingerprint: Seq<(u32, u32)>, input: Seq<Felt>) -> Pair {
    let synced = p.local.refreshed(p.shared);
    if synced.coverage.contains_key(fingerprint) {
        Pair { local: synced.count_case(), shared: p.shared.count_case() }
    } else {
        Pair {
            local: synced.note_coverage(fingerprint, input).count_case(),
            shared: p.shared.commit_coverage(fingerprint, input).count_case(),
        }
    }
}

/// What processing a successful execution finds: the fingerprint is known
/// where the cache, after its look at the ledger, holds it; else it is added
/// where the ledger does not hold it either; else it is known to the ledger
/// alone, and with `minimizer` set the input is named as redundant.
pub open spec fn verdict(p: Pair, fingerprint: Seq<(u32, u32)>, minimizer: bool) -> CoverageOutcome {
    if p.local.refreshed(p.shared).coverage.contains_key(fingerprint) {
        CoverageOutcome::Known
    } else if !p.shared.coverage.contains_key(fingerprint) {
        CoverageOutcome::Added
    } else if minimizer {
        CoverageOutcome::RemovalNotImplemented
    } else {
        CoverageOutcome::Known
    }
}

/// Cache and ledger after a failed execution was processed: the failure is
/// noted in the cache and committed to the ledger, and the case is counted on
/// both sides.
pub open spec fn after_failure(p: Pair, signature: Seq<char>, input: Seq<Felt>) -> Pair {
    Pair {
        local: p.local.note_crash(signature, input).count_case(),
        shared: p.shared.commit_crash(signature, input).count_case(),
    }
}

/// Whether the run can be processed: a completed one needs a trace that fits.
pub open spec fn run_fits(run: Run) -> bool {
    match run.execution {
        Execution::Completed(trace) => fits(trace@),
        Execution::Failed(_) => true,
    }
}

/// Cache and ledger after the run was processed.
pub open spec fn after_run(p: Pair, run: Run) -> Pair {
    match run.execution {
        Execution::Completed(trace) => after_success(p, as_fingerprint(trace@), run.input@),
        Execution::Failed(signature) => after_failure(p, signature@, run.input@),
    }
}

/// Whether the run is reported: it failed with a signature that the ledger
/// has no count for.
pub open spec fn is_reported(p: Pair, run: Run) -> bool {
    match run.execution {
        Execution::Completed(_) => false,
        Execution::Failed(signature) => !p.shared.crash_counts.contains_key(signature@),
    }
}

/// Cache and ledger after the first `n` runs were processed in order.
pub open spec fn after_runs(p: Pair, runs: Seq<Run>, n: nat) -> Pair
    decreases n,
{
    if n == 0 {
        p
    } else {
        after_run(after_runs(p, runs, (n - 1) as nat), runs[n - 1])
    }
}

/// The reports that the first `n` runs give rise to, as input and signature,
/// in order.
pub open spec fn reports(p: Pair, runs: Seq<Run>, n: nat) -> Seq<(Seq<Felt>, Seq<char>)>
    decreases n,
{
    if n == 0 {
        Seq::empty()
    } else {
        let before = reports(p, runs, (n - 1) as nat);
        let run = runs[n - 1];
        match run.execution {
            Execution::Failed(signature) if !after_runs(
                p,
                runs,
                (n - 1) as nat,
            ).shared.crash_counts.contains_key(signature@) => before.push((run.input@, signature@)),
            _ => before,
        }
    }
}

/// What a sequence of diagnostics says, as input and signature.
pub open spec fn diagnostic_views(d: Seq<Diagnostic>) -> Seq<(Seq<Felt>, Seq<char>)> {
    Seq::new(d.len(), |i: int| (d[i].input@, d[i].detail@))
}

/// Whether each of the first `n` runs can be processed.
pub open spec fn all_fit(runs: Seq<Run>, n: int) -> bool {
    forall|i: int| 0 <= i < n ==> run_fits(#[trigger] runs[i])
}

/// Reduces an execution trace to its coverage fingerprint.  A trace with an
/// offset that does not fit in 32 bits is refused, with the position of the
/// first such edge.
pub fn fingerprint_of(trace: &Vec<(usize, usize)>) -> (out: Result<Vec<(u32, u32)>, InternalError>)
    ensures
        out.is_ok() == fits(trace@),
        out matches Ok(f) ==> f@ == as_fingerprint(trace@),
        out matches Err(InternalError::OffsetOutOfRange(at)) ==> at < trace@.len() && fits_up_to(
            trace@,
            at as int,
        ) && !edge_fits(trace@[at as int]),
{
    let mut fingerprint: Vec<(u32, u32)> = Vec::new();
    let mut i: usize = 0;
    while i < trace.len()
        invariant
            0 <= i <= trace@.len(),
            fits_up_to(trace@, i as int),
            fingerprint@ == as_fingerprint(trace@.subrange(0, i as int)),
        decreases trace@.len() - i,
    {
        let source: usize = trace[i].0;
        let destination: usize = trace[i].1;
        if source > 0xffff_ffff || destination > 0xffff_ffff {
            return Err(InternalError::OffsetOutOfRange(i));
        }
        fingerprint.push((source as u32, destination as u32));
        assert(fingerprint@ =~= as_fingerprint(trace@.subrange(0, i + 1)));
        i += 1;
    }
    assert(trace@.subrange(0, i as int) =~= trace@);
    Ok(fingerprint)
}

impl Worker {
    /// The worker's number.
    pub closed spec fn ident(&self) -> usize {
        self.id
    }

    /// What the worker's cache holds.
    pub closed spec fn cache(&self) -> State {
        self.local@
    }

    /// The cache is well-formed (see `State::wf`).
    pub open spec fn wf(&self) -> bool {
        self.cache().wf()
    }

    /// A worker with an empty cache.
    pub fn new(id: usize) -> (out: Worker)
        ensures
            out.ident() == id,
            out.cache() == State::empty(),
            out.wf(),
    {
        Worker { id, local: Statistics::new() }
    }

    /// The worker's number.
    pub fn id(&self) -> (out: usize)
        ensures
            out == self.ident(),
    {
        self.id
    }

    /// The worker's cache.
    pub fn local(&self) -> (out: &Statistics)
        ensures
            out@ == self.cache(),
    {
        &self.local
    }

    /// Looks at the shared ledger, with its lock held: where the cache's
    /// input count differs from the ledger's, the cache is replaced by a copy
    /// of what the ledger holds, and the answer is `true`.
    pub fn sync(&mut self, ledger: &Statistics) -> (replaced: bool)
        requires
            old(self).wf(),
            ledger.wf(),
        ensures
            final(self).cache() == old(self).cache().refreshed(ledger@),
            replaced == (old(self).cache().input_len != ledger@.input_len),
            final(self).ident() == old(self).ident(),
            final(self).wf(),
    {
        self.local.refresh_from(ledger)
    }

    /// Tests the fingerprint against the cache, without the ledger.  One that
    /// the cache does not hold is noted there with its input, and the answer
    /// is `true`: the caller then commits it to the ledger.
    pub fn note_coverage(&mut self, fingerprint: &Vec<(u32, u32)>, input: &Arc<Vec<Felt>>) -> (fresh:
        bool)
        requires
            old(self).wf(),
        ensures
            fresh == !old(self).cache().coverage.contains_key(fingerprint@),
            final(self).cache() == if fresh {
                old(self).cache().note_coverage(fingerprint@, input@)
            } else {
                old(self).cache()
            },
            final(self).ident() == old(self).ident(),
            final(self).wf(),
    {
        if self.local.knows_coverage(fingerprint) {
            false
        } else {
            self.local.note_coverage(fingerprint, input);
            true
        }
    }

    /// Records a failure in the cache and in the ledger, with the ledger's
    /// lock held.  A signature that the ledger had no count for is reported.
    pub fn record_failure(
        &mut self,
        ledger: &mut Statistics,
        signature: &String,
        input: &Arc<Vec<Felt>>,
    ) -> (out: Option<Diagnostic>)
        requires
            old(self).wf(),
            old(ledger).is_shared(),
            old(self).cache().crashes < u64::MAX,
            old(ledger)@.crashes < u64::MAX,
        ensures
            final(self).cache() == old(self).cache().note_crash(signature@, input@),
            final(ledger)@ == old(ledger)@.commit_crash(signature@, input@),
            out.is_some() == !old(ledger)@.crash_counts.contains_key(signature@),
            out matches Some(d) ==> d.worker_id == old(self).ident() && d.input@ == input@
                && d.detail@ == signature@,
            final(self).ident() == old(self).ident(),
            final(self).wf(),
            final(ledger).is_shared(),
    {
        self.local.note_crash(signature, input);
        if ledger.record_crash(signature, input) {
            Some(
                Diagnostic {
                    worker_id: self.id,
                    input: share(input),
                    detail: signature.clone(),
                },
            )
        } else {
            None
        }
    }

    /// Counts one executed case in the cache and in the ledger, with the
    /// ledger's lock held.
    pub fn count_case(&mut self, ledger: &mut Statistics)
        requires
            old(self).cache().fuzz_cases < u64::MAX,
            old(ledger)@.fuzz_cases < u64::MAX,
        ensures
            final(self).cache() == old(self).cache().count_case(),
            final(ledger)@ == old(ledger)@.count_case(),
            final(self).ident() == old(self).ident(),
    {
        self.local.count_case();
        ledger.count_case();
    }

    /// Tells the ledger, with its lock held, that the worker's batch is done.
    pub fn finish(&self, ledger: &mut Statistics)
        requires
            old(ledger)@.finished < u64::MAX,
        ensures
            final(ledger)@ == old(ledger)@.finish(),
    {
        ledger.mark_finished();
    }

    /// Processes one successful execution, given its fingerprint, with the
    /// ledger held for the whole step.
    pub fn process_success(
        &mut self,
        ledger: &mut Statistics,
        fingerprint: &Vec<(u32, u32)>,
        input: &Arc<Vec<Felt>>,
        minimizer: bool,
    ) -> (out: CoverageOutcome)
        requires
            old(self).wf(),
            old(ledger).is_shared(),
            old(self).cache().fuzz_cases < u64::MAX,
            old(ledger)@.fuzz_cases < u64::MAX,
        ensures
            (Pair { local: final(self).cache(), shared: final(ledger)@ }) == after_success(
                Pair { local: old(self).cache(), shared: old(ledger)@ },
                fingerprint@,
                input@,
            ),
            out == verdict(
                Pair { local: old(self).cache(), shared: old(ledger)@ },
                fingerprint@,
                minimizer,
            ),
            final(self).ident() == old(self).ident(),
            final(self).wf(),
            final(ledger).is_shared(),
    {
        self.sync(ledger);
        let outcome = if self.note_coverage(fingerprint, input) {
            ledger.record_coverage(fingerprint, input, minimizer)
        } else {
            CoverageOutcome::Known
        };
        proof {
            lemma_apply_keeps_shared(ledger@, Op::Case);
        }
        self.count_case(ledger);
        outcome
    }

    /// Processes one failed execution, with the ledger held for the whole
    /// step.  A signature that the ledger had no count for is reported.
    pub fn process_failure(
        &mut self,
        ledger: &mut Statistics,
        signature: &String,
        input: &Arc<Vec<Felt>>,
    ) -> (out: Option<Diagnostic>)
        requires
            old(self).wf(),
            old(ledger).is_shared(),
            old(self).cache().has_room(),
            old(ledger)@.has_room(),
        ensures
            (Pair { local: final(self).cache(), shared: final(ledger)@ }) == after_failure(
                Pair { local: old(self).cache(), shared: old(ledger)@ },
                signature@,
                input@,
            ),
            out.is_some() == !old(ledger)@.crash_counts.contains_key(signature@),
            out matches Some(d) ==> d.worker_id == old(self).ident() && d.input@ == input@
                && d.detail@ == signature@,
            final(self).ident() == old(self).ident(),
            final(self).wf(),
            final(ledger).is_shared(),
    {
        let report = self.record_failure(ledger, signature, input);
        proof {
            lemma_apply_keeps_shared(ledger@, Op::Case);
        }
        self.count_case(ledger);
        report
    }

    /// Processes one run, with the ledger held for the whole step.  A
    /// completed run whose trace does not fit is refused, and neither the
    /// cache nor the ledger changes.
    pub fn process(&mut self, ledger: &mut Statistics, run: &Run, minimizer: bool) -> (out: Result<
        Processed,
        InternalError,
    >)
        requires
            old(self).wf(),
            old(ledger).is_shared(),
            old(self).cache().has_room(),
            old(ledger)@.has_room(),
        ensures
            out.is_ok() == run_fits(*run),
            out.is_ok() ==> (Pair { local: final(self).cache(), shared: final(ledger)@ })
                == after_run(Pair { local: old(self).cache(), shared: old(ledger)@ }, *run),
            out.is_err() ==> final(self).cache() == old(self).cache() && final(ledger)@ == old(
                ledger,
            )@,
            out matches Err(InternalError::OffsetOutOfRange(at)) ==> (run.execution matches Execution::Completed(
                t,
            ) && at < t@.len() && fits_up_to(t@, at as int) && !edge_fits(t@[at as int])),
            out matches Ok(Processed::Covered(v)) ==> (run.execution matches Execution::Completed(
                t,
            ) && v == verdict(
                Pair { local: old(self).cache(), shared: old(ledger)@ },
                as_fingerprint(t@),
                minimizer,
            )),
            out matches Ok(Processed::Crashed(report)) ==> run.execution is Failed
                && report.is_some() == is_reported(
                Pair { local: old(self).cache(), shared: old(ledger)@ },
                *run,
            ),
            out matches Ok(Processed::Crashed(Some(d))) ==> d.worker_id == old(self).ident()
                && d.input@ == run.input@ && (run.execution matches Execution::Failed(s)
                && d.detail@ == s@),
            final(self).ident() == old(self).ident(),
            final(self).wf(),
            final(ledger).is_shared(),
    {
        match &run.execution {
            Execution::Completed(trace) => {
                match fingerprint_of(trace) {
                    Ok(fingerprint) => Ok(
                        Processed::Covered(
                            self.process_success(ledger, &fingerprint, &run.input, minimizer),
                        ),
                    ),
                    Err(e) => Err(e),
                }
            },
            Execution::Failed(signature) => Ok(
                Processed::Crashed(self.process_failure(ledger, signature, &run.input)),
            ),
        }
    }
}

/// Processes a worker's batch: a fresh worker with the given number takes
/// the runs in order, each as `Worker::process` does, and then reports itself
/// finished.  The answer holds the reports of the failures that the ledger
/// had not seen, in order.  At the first run whose trace does not fit the
/// worker stops: the ledger keeps what the runs before it did, and the worker
/// is not counted as finished.
pub fn replay(worker_id: usize, ledger: &mut Statistics, runs: &Vec<Run>, minimizer: bool) -> (out:
    Result<Vec<Diagnostic>, InternalError>)
    requires
        old(ledger).is_shared(),
        old(ledger)@.crashes + runs@.len() <= u64::MAX,
        old(ledger)@.fuzz_cases + runs@.len() <= u64::MAX,
        old(ledger)@.finished < u64::MAX,
    ensures
        out.is_ok() == all_fit(runs@, runs@.len() as int),
        out matches Ok(d) ==> {
            let start = Pair { local: State::empty(), shared: old(ledger)@ };
            &&& final(ledger)@ == after_runs(start, runs@, runs@.len()).shared.finish()
            &&& diagnostic_views(d@) == reports(start, runs@, runs@.len())
            &&& forall|i: int| 0 <= i < d@.len() ==> (#[trigger] d@[i]).worker_id == worker_id
        },
        out matches Err(InternalError::OffsetOutOfRange(_)) ==> exists|k: int|
            0 <= k < runs@.len() && all_fit(runs@, k) && !run_fits(#[trigger] runs@[k])
                && final(ledger)@ == after_runs(
                Pair { local: State::empty(), shared: old(ledger)@ },
                runs@,
                k as nat,
            ).shared,
        final(ledger).is_shared(),
{
    let ghost start = Pair { local: State::empty(), shared: ledger@ };
    let mut worker = Worker::new(worker_id);
    let mut found: Vec<Diagnostic> = Vec::new();
    let mut i: usize = 0;
    proof {
        assert(diagnostic_views(found@) =~= reports(start, runs@, 0));
    }
    while i < runs.len()
        invariant
            0 <= i <= runs@.len(),
            all_fit(runs@, i as int),
            start == (Pair { local: State::empty(), shared: old(ledger)@ }),
            (Pair { local: worker.cache(), shared: ledger@ }) == after_runs(start, runs@, i as nat),
            diagnostic_views(found@) == reports(start, runs@, i as nat),
            forall|j: int| 0 <= j < found@.len() ==> (#[trigger] found@[j]).worker_id == worker_id,
            worker.wf(),
            worker.ident() == worker_id,
            ledger.is_shared(),
            ledger@.crashes <= old(ledger)@.crashes + i,
            ledger@.fuzz_cases == old(ledger)@.fuzz_cases + i,
            ledger@.finished == old(ledger)@.finished,
            worker.cache().crashes <= ledger@.crashes,
            worker.cache().fuzz_cases <= i,
            worker.cache().finished == 0,
            old(ledger)@.crashes + runs@.len() <= u64::MAX,
            old(ledger)@.fuzz_cases + runs@.len() <= u64::MAX,
            old(ledger)@.finished < u64::MAX,
        decreases runs@.len() - i,
    {
        match worker.process(ledger, &runs[i], minimizer) {
            Ok(report) => {
                proof {
                    assert(after_runs(start, runs@, (i + 1) as nat) == after_run(
                        after_runs(start, runs@, i as nat),
                        runs@[i as int],
                    ));
                }
                match report {
                    Processed::Crashed(Some(d)) => {
                        proof {
                            assert(diagnostic_views(found@.push(d)) =~= diagnostic_views(
                                found@,
                            ).push((d.input@, d.detail@)));
                        }
                        found.push(d);
                    },
                    _ => {},
                }
            },
            Err(e) => {
                return Err(e);
            },
        }
        i += 1;
    }
    proof {
        lemma_apply_keeps_shared(ledger@, Op::Finish);
    }
    worker.finish(ledger);
    Ok(found)
}

} // verus!
