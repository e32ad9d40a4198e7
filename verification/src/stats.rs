//! The coverage / corpus / crash ledger, and the cache of it that each worker
//! keeps.  Every change is one whole operation on the model of `model::State`;
//! a caller that shares a ledger between workers holds its lock for the length
//! of one such operation.

use vstd::prelude::*;
use std::sync::Arc;
use crate::assoc::{
    first_wins, has_key, is_first, lemma_first_wins_at, lemma_first_wins_keys,
    lemma_first_wins_push, lemma_first_wins_update,
};
use crate::field::Felt;
use crate::model::{
    lemma_accept_keeps_shared, lemma_apply_keeps_shared, lemma_refreshed_is_wf, Op, State,
};

verus! {

/// A fingerprint with the input that stands for it.
struct CoverageEntry {
    fingerprint: Vec<(u32, u32)>,
    input: Arc<Vec<Felt>>,
}

/// A failure signature with the input that stands for it.
struct CrashEntry {
    signature: String,
    input: Arc<Vec<Felt>>,
}

/// A failure signature with the number of times it was seen.
struct CrashCount {
    signature: String,
    count: u64,
}

/// What committing a successful execution found.
#[derive(Clone, Copy, Debug, PartialEq, Eq, Structural)]
pub enum CoverageOutcome {
    /// The fingerprint was new; the input now stands for it.
    Added,
    /// The fingerprint was covered already; nothing changed.
    Known,
    /// The fingerprint was covered already and the run asked for the corpus
    /// to be minimized: the input is redundant, but removing it is not
    /// implemented, and nothing changed.
    RemovalNotImplemented,
}

/// The ledger.
pub struct Statistics {
    coverage_db: Vec<CoverageEntry>,
    input_db: Vec<Arc<Vec<Felt>>>,
    input_list: Vec<Arc<Vec<Felt>>>,
    input_len: usize,
    crashes: u64,
    crash_db: Vec<CrashEntry>,
    crash_list: Vec<CrashCount>,
    fuzz_cases: u64,
    finished: u64,
}

/// The inputs behind a sequence of handles.
pub open spec fn input_views(v: Seq<Arc<Vec<Felt>>>) -> Seq<Seq<Felt>> {
    Seq::new(v.len(), |i: int| v[i]@)
}

/// The coverage entries as pairs of fingerprint and input.
spec fn coverage_pairs(v: Seq<CoverageEntry>) -> Seq<(Seq<(u32, u32)>, Seq<Felt>)> {
    Seq::new(v.len(), |i: int| (v[i].fingerprint@, v[i].input@))
}

/// The crash entries as pairs of signature and input.
spec fn crash_pairs(v: Seq<CrashEntry>) -> Seq<(Seq<char>, Seq<Felt>)> {
    Seq::new(v.len(), |i: int| (v[i].signature@, v[i].input@))
}

/// The crash counts as pairs of signature and count.
spec fn count_pairs(v: Seq<CrashCount>) -> Seq<(Seq<char>, nat)> {
    Seq::new(v.len(), |i: int| (v[i].signature@, v[i].count as nat))
}

impl View for Statistics {
    type V = State;

    closed spec fn view(&self) -> State {
        State {
            coverage: first_wins(coverage_pairs(self.coverage_db@)),
            input_set: input_views(self.input_db@).to_set(),
            input_list: input_views(self.input_list@),
            input_len: self.input_len as nat,
            crashes: self.crashes as nat,
            crash_map: first_wins(crash_pairs(self.crash_db@)),
            crash_counts: first_wins(count_pairs(self.crash_list@)),
            fuzz_cases: self.fuzz_cases as nat,
            finished: self.finished as nat,
        }
    }
}

/// Calls `Arc::clone`: one more handle to the same input.
#[verifier::external_body]
pub(crate) fn share(input: &Arc<Vec<Felt>>) -> (out: Arc<Vec<Felt>>)
    ensures
        out == *input,
{
    Arc::clone(input)
}

/// Whether two fingerprints hold the same edges in the same order.
pub fn same_fingerprint(a: &Vec<(u32, u32)>, b: &Vec<(u32, u32)>) -> (out: bool)
    ensures
        out == (a@ == b@),
{
    if a.len() != b.len() {
        return false;
    }
    let mut i: usize = 0;
    while i < a.len()
        invariant
            0 <= i <= a@.len(),
            a@.len() == b@.len(),
            forall|j: int| 0 <= j < i ==> a@[j] == b@[j],
        decreases a@.len() - i,
    {
        if a[i].0 != b[i].0 || a[i].1 != b[i].1 {
            return false;
        }
        i += 1;
    }
    assert(a@ =~= b@);
    true
}

/// Whether two inputs hold the same elements in the same order.
pub fn same_input(a: &Vec<Felt>, b: &Vec<Felt>) -> (out: bool)
    ensures
        out == (a@ == b@),
{
    if a.len() != b.len() {
        return false;
    }
    let mut i: usize = 0;
    while i < a.len()
        invariant
            0 <= i <= a@.len(),
            a@.len() == b@.len(),
            forall|j: int| 0 <= j < i ==> a@[j] == b@[j],
        decreases a@.len() - i,
    {
        if !a[i].same(&b[i]) {
            return false;
        }
        i += 1;
    }
    assert(a@ =~= b@);
    true
}

fn copy_fingerprint(fingerprint: &Vec<(u32, u32)>) -> (out: Vec<(u32, u32)>)
    ensures
        out@ == fingerprint@,
{
    let mut out: Vec<(u32, u32)> = Vec::new();
    let mut i: usize = 0;
    while i < fingerprint.len()
        invariant
            0 <= i <= fingerprint@.len(),
            out@ == fingerprint@.subrange(0, i as int),
        decreases fingerprint@.len() - i,
    {
        out.push((fingerprint[i].0, fingerprint[i].1));
        i += 1;
    }
    assert(out@ =~= fingerprint@);
    out
}

fn copy_inputs(inputs: &Vec<Arc<Vec<Felt>>>) -> (out: Vec<Arc<Vec<Felt>>>)
    ensures
        out@ == inputs@,
{
    let mut out: Vec<Arc<Vec<Felt>>> = Vec::new();
    let mut i: usize = 0;
    while i < inputs.len()
        invariant
            0 <= i <= inputs@.len(),
            out@ == inputs@.subrange(0, i as int),
        decreases inputs@.len() - i,
    {
        out.push(share(&inputs[i]));
        i += 1;
    }
    assert(out@ =~= inputs@);
    out
}

fn copy_coverage(entries: &Vec<CoverageEntry>) -> (out: Vec<CoverageEntry>)
    ensures
        coverage_pairs(out@) == coverage_pairs(entries@),
{
    let mut out: Vec<CoverageEntry> = Vec::new();
    let mut i: usize = 0;
    while i < entries.len()
        invariant
            0 <= i <= entries@.len(),
            out@.len() == i,
            forall|j: int|
                0 <= j < i ==> (#[trigger] out@[j]).fingerprint@ == entries@[j].fingerprint@
                    && out@[j].input@ == entries@[j].input@,
        decreases entries@.len() - i,
    {
        let entry = &entries[i];
        out.push(
            CoverageEntry {
                fingerprint: copy_fingerprint(&entry.fingerprint),
                input: share(&entry.input),
            },
        );
        i += 1;
    }
    assert(coverage_pairs(out@) =~= coverage_pairs(entries@));
    out
}

fn copy_crashes(entries: &Vec<CrashEntry>) -> (out: Vec<CrashEntry>)
    ensures
        crash_pairs(out@) == crash_pairs(entries@),
{
    let mut out: Vec<CrashEntry> = Vec::new();
    let mut i: usize = 0;
    while i < entries.len()
        invariant
            0 <= i <= entries@.len(),
            out@.len() == i,
            forall|j: int|
                0 <= j < i ==> (#[trigger] out@[j]).signature@ == entries@[j].signature@
                    && out@[j].input@ == entries@[j].input@,
        decreases entries@.len() - i,
    {
        let entry = &entries[i];
        out.push(CrashEntry { signature: entry.signature.clone(), input: share(&entry.input) });
        i += 1;
    }
    assert(crash_pairs(out@) =~= crash_pairs(entries@));
    out
}

impl Default for Statistics {
    fn default() -> (out: Statistics)
        ensures
            out@ == State::empty(),
    {
        Statistics::new()
    }
}

impl Statistics {
    /// What holds of every ledger and every cache (see `State::wf`).
    pub open spec fn wf(&self) -> bool {
        self@.wf()
    }

    /// What holds of the shared ledger (see `State::is_shared`).
    pub open spec fn is_shared(&self) -> bool {
        self@.is_shared()
    }

    /// The empty ledger of a fresh campaign.
    pub fn new() -> (out: Statistics)
        ensures
            out@ == State::empty(),
            out.is_shared(),
    {
        let out = Statistics {
            coverage_db: Vec::new(),
            input_db: Vec::new(),
            input_list: Vec::new(),
            input_len: 0,
            crashes: 0,
            crash_db: Vec::new(),
            crash_list: Vec::new(),
            fuzz_cases: 0,
            finished: 0,
        };
        proof {
            assert(coverage_pairs(out.coverage_db@) =~= Seq::empty());
            assert(crash_pairs(out.crash_db@) =~= Seq::empty());
            assert(count_pairs(out.crash_list@) =~= Seq::empty());
            assert(input_views(out.input_db@) =~= Seq::empty());
            assert(input_views(out.input_list@) =~= Seq::empty());
            assert(Seq::<Seq<Felt>>::empty().to_set() =~= Set::empty());
            assert(out@ =~= State::empty());
        }
        out
    }

    fn find_coverage(&self, fingerprint: &Vec<(u32, u32)>) -> (out: Option<usize>)
        ensures
            match out {
                Some(i) => is_first(coverage_pairs(self.coverage_db@), i as int) && coverage_pairs(
                    self.coverage_db@,
                )[i as int].0 == fingerprint@,
                None => !has_key(coverage_pairs(self.coverage_db@), fingerprint@),
            },
    {
        let mut i: usize = 0;
        while i < self.coverage_db.len()
            invariant
                0 <= i <= self.coverage_db@.len(),
                forall|j: int|
                    0 <= j < i ==> (#[trigger] coverage_pairs(self.coverage_db@)[j]).0
                        != fingerprint@,
            decreases self.coverage_db@.len() - i,
        {
            if same_fingerprint(&self.coverage_db[i].fingerprint, fingerprint) {
                return Some(i);
            }
            i += 1;
        }
        None
    }

    fn find_crash(&self, signature: &String) -> (out: Option<usize>)
        ensures
            match out {
                Some(i) => is_first(crash_pairs(self.crash_db@), i as int) && crash_pairs(
                    self.crash_db@,
                )[i as int].0 == signature@,
                None => !has_key(crash_pairs(self.crash_db@), signature@),
            },
    {
        let mut i: usize = 0;
        while i < self.crash_db.len()
            invariant
                0 <= i <= self.crash_db@.len(),
                forall|j: int|
                    0 <= j < i ==> (#[trigger] crash_pairs(self.crash_db@)[j]).0 != signature@,
            decreases self.crash_db@.len() - i,
        {
            if self.crash_db[i].signature == *signature {
                return Some(i);
            }
            i += 1;
        }
        None
    }

    fn find_count(&self, signature: &String) -> (out: Option<usize>)
        ensures
            match out {
                Some(i) => is_first(count_pairs(self.crash_list@), i as int) && count_pairs(
                    self.crash_list@,
                )[i as int].0 == signature@,
                None => !has_key(count_pairs(self.crash_list@), signature@),
            },
    {
        let mut i: usize = 0;
        while i < self.crash_list.len()
            invariant
                0 <= i <= self.crash_list@.len(),
                forall|j: int|
                    0 <= j < i ==> (#[trigger] count_pairs(self.crash_list@)[j]).0 != signature@,
            decreases self.crash_list@.len() - i,
        {
            if self.crash_list[i].signature == *signature {
                return Some(i);
            }
            i += 1;
        }
        None
    }

    /// Whether the fingerprint has a representative.
    pub fn knows_coverage(&self, fingerprint: &Vec<(u32, u32)>) -> (out: bool)
        ensures
            out == self@.coverage.contains_key(fingerprint@),
    {
        proof {
            lemma_first_wins_keys(coverage_pairs(self.coverage_db@), fingerprint@);
        }
        self.find_coverage(fingerprint).is_some()
    }

    /// The input that stands for the fingerprint, if it has one.
    pub fn representative(&self, fingerprint: &Vec<(u32, u32)>) -> (out: Option<Arc<Vec<Felt>>>)
        ensures
            out.is_some() == self@.coverage.contains_key(fingerprint@),
            out matches Some(x) ==> x@ == self@.coverage[fingerprint@],
    {
        proof {
            lemma_first_wins_keys(coverage_pairs(self.coverage_db@), fingerprint@);
        }
        match self.find_coverage(fingerprint) {
            Some(i) => {
                proof {
                    lemma_first_wins_at(coverage_pairs(self.coverage_db@), i as int);
                }
                Some(share(&self.coverage_db[i].input))
            },
            None => None,
        }
    }

    /// Whether the input is in the input set.
    pub fn has_input(&self, input: &Vec<Felt>) -> (out: bool)
        ensures
            out == self@.input_set.contains(input@),
    {
        let mut i: usize = 0;
        while i < self.input_db.len()
            invariant
                0 <= i <= self.input_db@.len(),
                forall|j: int| 0 <= j < i ==> (#[trigger] input_views(self.input_db@)[j]) != input@,
            decreases self.input_db@.len() - i,
        {
            if same_input(input_of(&self.input_db[i]), input) {
                assert(input_views(self.input_db@)[i as int] == input@);
                return true;
            }
            i += 1;
        }
        false
    }

    /// The number of accepted inputs.
    pub fn input_len(&self) -> (out: usize)
        ensures
            out == self@.input_len,
    {
        self.input_len
    }

    /// The accepted inputs, in the order in which they were accepted.
    pub fn inputs(&self) -> (out: Vec<Arc<Vec<Felt>>>)
        ensures
            input_views(out@) == self@.input_list,
    {
        copy_inputs(&self.input_list)
    }

    /// How many executions failed.
    pub fn crashes(&self) -> (out: u64)
        ensures
            out == self@.crashes,
    {
        self.crashes
    }

    /// How many inputs were executed.
    pub fn fuzz_cases(&self) -> (out: u64)
        ensures
            out == self@.fuzz_cases,
    {
        self.fuzz_cases
    }

    /// How many workers have finished their batch.
    pub fn finished(&self) -> (out: u64)
        ensures
            out == self@.finished,
    {
        self.finished
    }

    /// Whether each 64-bit counter has room for one more.
    pub fn has_room(&self) -> (out: bool)
        ensures
            out == self@.has_room(),
    {
        self.crashes < u64::MAX && self.fuzz_cases < u64::MAX && self.finished < u64::MAX
    }

    /// How often the failure signature was seen; zero if never.
    pub fn crash_count(&self, signature: &String) -> (out: u64)
        ensures
            out == if self@.crash_counts.contains_key(signature@) {
                self@.crash_counts[signature@]
            } else {
                0
            },
    {
        proof {
            lemma_first_wins_keys(count_pairs(self.crash_list@), signature@);
        }
        match self.find_count(signature) {
            Some(i) => {
                proof {
                    lemma_first_wins_at(count_pairs(self.crash_list@), i as int);
                }
                self.crash_list[i].count
            },
            None => 0,
        }
    }

    /// The input that stands for the failure signature, if it has one.
    pub fn crash_representative(&self, signature: &String) -> (out: Option<Arc<Vec<Felt>>>)
        ensures
            out.is_some() == self@.crash_map.contains_key(signature@),
            out matches Some(x) ==> x@ == self@.crash_map[signature@],
    {
        proof {
            lemma_first_wins_keys(crash_pairs(self.crash_db@), signature@);
        }
        match self.find_crash(signature) {
            Some(i) => {
                proof {
                    lemma_first_wins_at(crash_pairs(self.crash_db@), i as int);
                }
                Some(share(&self.crash_db[i].input))
            },
            None => None,
        }
    }

    /// Puts the input into the input set, if it is not there.
    fn remember(&mut self, input: &Arc<Vec<Felt>>)
        ensures
            final(self)@ == (State { input_set: old(self)@.input_set.insert(input@), ..old(self)@ }),
    {
        if !self.has_input(input_of(input)) {
            proof {
                input_views(self.input_db@).lemma_push_to_set_commute(input@);
                assert(input_views(self.input_db@.push(*input)) =~= input_views(
                    self.input_db@,
                ).push(input@));
            }
            self.input_db.push(share(input));
        }
        proof {
            assert(final(self)@.input_set =~= old(self)@.input_set.insert(input@));
        }
    }

    /// Accepts the input: appended and counted unless it is in the input set.
    fn accept(&mut self, input: &Arc<Vec<Felt>>)
        requires
            old(self)@.input_len == old(self)@.input_list.len(),
        ensures
            final(self)@ == old(self)@.accept(input@),
    {
        if !self.has_input(input_of(input)) {
            proof {
                input_views(self.input_db@).lemma_push_to_set_commute(input@);
                assert(input_views(self.input_db@.push(*input)) =~= input_views(
                    self.input_db@,
                ).push(input@));
                assert(input_views(self.input_list@.push(*input)) =~= input_views(
                    self.input_list@,
                ).push(input@));
            }
            self.input_db.push(share(input));
            self.input_list.push(share(input));
            self.input_len = self.input_list.len();
        }
    }

    /// Commits a successful execution: a fingerprint that is not yet covered
    /// gets the input as its representative, and the input is accepted.  A
    /// covered fingerprint changes nothing; with `minimizer` set the answer
    /// then says that the redundant input was not removed.
    pub fn record_coverage(
        &mut self,
        fingerprint: &Vec<(u32, u32)>,
        input: &Arc<Vec<Felt>>,
        minimizer: bool,
    ) -> (out: CoverageOutcome)
        requires
            old(self).is_shared(),
        ensures
            final(self)@ == old(self)@.commit_coverage(fingerprint@, input@),
            final(self).is_shared(),
            out == if !old(self)@.coverage.contains_key(fingerprint@) {
                CoverageOutcome::Added
            } else if minimizer {
                CoverageOutcome::RemovalNotImplemented
            } else {
                CoverageOutcome::Known
            },
    {
        proof {
            lemma_first_wins_keys(coverage_pairs(self.coverage_db@), fingerprint@);
            lemma_accept_keeps_shared(self@, input@);
        }
        if self.find_coverage(fingerprint).is_none() {
            self.accept(input);
            proof {
                lemma_first_wins_push(coverage_pairs(self.coverage_db@), fingerprint@, input@);
            }
            let entry = CoverageEntry {
                fingerprint: copy_fingerprint(fingerprint),
                input: share(input),
            };
            proof {
                assert(coverage_pairs(self.coverage_db@.push(entry)) =~= coverage_pairs(
                    self.coverage_db@,
                ).push((fingerprint@, input@)));
            }
            self.coverage_db.push(entry);
            CoverageOutcome::Added
        } else if minimizer {
            CoverageOutcome::RemovalNotImplemented
        } else {
            CoverageOutcome::Known
        }
    }

    /// Commits a failed execution: it is counted and the input is accepted.
    /// A signature seen for the first time gets the input as its
    /// representative and the count 1, and the answer is `true`: the caller
    /// reports the failure once.  A signature seen before is counted once
    /// more, and the answer is `false`.
    pub fn record_crash(&mut self, signature: &String, input: &Arc<Vec<Felt>>) -> (first: bool)
        requires
            old(self).is_shared(),
            old(self)@.crashes < u64::MAX,
        ensures
            final(self)@ == old(self)@.commit_crash(signature@, input@),
            final(self).is_shared(),
            first == !old(self)@.crash_counts.contains_key(signature@),
    {
        proof {
            lemma_apply_keeps_shared(self@, Op::Crash(signature@, input@));
        }
        self.crashes = self.crashes + 1;
        self.accept(input);
        proof {
            lemma_first_wins_keys(crash_pairs(self.crash_db@), signature@);
            lemma_first_wins_keys(count_pairs(self.crash_list@), signature@);
        }
        if self.find_crash(signature).is_none() {
            proof {
                lemma_first_wins_push(crash_pairs(self.crash_db@), signature@, input@);
            }
            let entry = CrashEntry { signature: signature.clone(), input: share(input) };
            proof {
                assert(crash_pairs(self.crash_db@.push(entry)) =~= crash_pairs(
                    self.crash_db@,
                ).push((signature@, input@)));
            }
            self.crash_db.push(entry);
        }
        match self.find_count(signature) {
            None => {
                proof {
                    lemma_first_wins_push(count_pairs(self.crash_list@), signature@, 1nat);
                }
                let entry = CrashCount { signature: signature.clone(), count: 1 };
                proof {
                    assert(count_pairs(self.crash_list@.push(entry)) =~= count_pairs(
                        self.crash_list@,
                    ).push((signature@, 1nat)));
                }
                self.crash_list.push(entry);
                true
            },
            Some(i) => {
                let seen: u64 = self.crash_list[i].count;
                proof {
                    lemma_first_wins_at(count_pairs(self.crash_list@), i as int);
                    lemma_first_wins_update(
                        count_pairs(self.crash_list@),
                        i as int,
                        (seen + 1) as nat,
                    );
                }
                let entry = CrashCount { signature: signature.clone(), count: seen + 1 };
                proof {
                    assert(count_pairs(self.crash_list@.update(i as int, entry)) =~= count_pairs(
                        self.crash_list@,
                    ).update(i as int, (signature@, (seen + 1) as nat)));
                }
                self.crash_list.set(i, entry);
                false
            },
        }
    }

    /// Counts one more executed case.
    pub fn count_case(&mut self)
        requires
            old(self)@.fuzz_cases < u64::MAX,
        ensures
            final(self)@ == old(self)@.count_case(),
    {
        self.fuzz_cases = self.fuzz_cases + 1;
    }

    /// Counts one more finished worker.
    pub fn mark_finished(&mut self)
        requires
            old(self)@.finished < u64::MAX,
        ensures
            final(self)@ == old(self)@.finish(),
    {
        self.finished = self.finished + 1;
    }

    /// In a worker's cache: notes coverage that the cache may not hold yet.
    /// The input joins the cache's input set, and stands for the fingerprint
    /// unless that has a representative already.
    pub fn note_coverage(&mut self, fingerprint: &Vec<(u32, u32)>, input: &Arc<Vec<Felt>>)
        requires
            old(self).wf(),
        ensures
            final(self)@ == old(self)@.note_coverage(fingerprint@, input@),
            final(self).wf(),
    {
        self.remember(input);
        proof {
            lemma_first_wins_keys(coverage_pairs(self.coverage_db@), fingerprint@);
        }
        if self.find_coverage(fingerprint).is_none() {
            proof {
                lemma_first_wins_push(coverage_pairs(self.coverage_db@), fingerprint@, input@);
            }
            let entry = CoverageEntry {
                fingerprint: copy_fingerprint(fingerprint),
                input: share(input),
            };
            proof {
                assert(coverage_pairs(self.coverage_db@.push(entry)) =~= coverage_pairs(
                    self.coverage_db@,
                ).push((fingerprint@, input@)));
            }
            self.coverage_db.push(entry);
        }
    }

    /// In a worker's cache: notes a failure.  It is counted, the input joins
    /// the cache's input set, and stands for the signature unless that has a
    /// representative already.
    pub fn note_crash(&mut self, signature: &String, input: &Arc<Vec<Felt>>)
        requires
            old(self).wf(),
            old(self)@.crashes < u64::MAX,
        ensures
            final(self)@ == old(self)@.note_crash(signature@, input@),
            final(self).wf(),
    {
        self.crashes = self.crashes + 1;
        self.remember(input);
        proof {
            lemma_first_wins_keys(crash_pairs(self.crash_db@), signature@);
        }
        if self.find_crash(signature).is_none() {
            proof {
                lemma_first_wins_push(crash_pairs(self.crash_db@), signature@, input@);
            }
            let entry = CrashEntry { signature: signature.clone(), input: share(input) };
            proof {
                assert(crash_pairs(self.crash_db@.push(entry)) =~= crash_pairs(
                    self.crash_db@,
                ).push((signature@, input@)));
            }
            self.crash_db.push(entry);
        }
    }

    /// In a worker's cache: looks at the shared ledger.  Where the two input
    /// counts differ, the cache's coverage map, input set, input list, input
    /// count, crash count and crash map are replaced by copies of the
    /// ledger's, and the answer is `true`; where they agree nothing changes.
    pub fn refresh_from(&mut self, shared: &Statistics) -> (replaced: bool)
        requires
            old(self).wf(),
            shared.wf(),
        ensures
            final(self)@ == old(self)@.refreshed(shared@),
            replaced == (old(self)@.input_len != shared@.input_len),
            final(self).wf(),
    {
        proof {
            lemma_refreshed_is_wf(self@, shared@);
        }
        if self.input_len != shared.input_len {
            self.coverage_db = copy_coverage(&shared.coverage_db);
            self.input_db = copy_inputs(&shared.input_db);
            self.input_list = copy_inputs(&shared.input_list);
            self.input_len = shared.input_len;
            self.crashes = shared.crashes;
            self.crash_db = copy_crashes(&shared.crash_db);
            true
        } else {
            false
        }
    }
}

/// The vector behind a handle.
pub fn input_of(shared: &Arc<Vec<Felt>>) -> (out: &Vec<Felt>)
    ensures
        out@ == shared@,
{
    &**shared
}

} // verus!
