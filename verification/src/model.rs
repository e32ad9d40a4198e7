//! The mathematical model of the coverage / corpus / crash ledger: what it
//! holds, the whole operations that change it, and the laws those operations
//! obey.  The executable ledger is specified against this model.

use vstd::prelude::*;
use crate::field::Felt;

verus! {

/// What a ledger holds.
#[verifier::ext_equal]
pub struct State {
    /// Fingerprint to the first input that produced it.
    pub coverage: Map<Seq<(u32, u32)>, Seq<Felt>>,
    /// Every distinct input that was accepted.
    pub input_set: Set<Seq<Felt>>,
    /// The accepted inputs in the order in which they were accepted.
    pub input_list: Seq<Seq<Felt>>,
    /// The number of accepted inputs.
    pub input_len: nat,
    /// How many executions failed.
    pub crashes: nat,
    /// Failure signature to the first input that failed with it.
    pub crash_map: Map<Seq<char>, Seq<Felt>>,
    /// Failure signature to the number of times it was seen.
    pub crash_counts: Map<Seq<char>, nat>,
    /// How many inputs were executed.
    pub fuzz_cases: nat,
    /// How many workers have finished their batch.
    pub finished: nat,
}

/// A whole operation on the shared ledger.
pub enum Op {
    /// A successful execution of an input, with its fingerprint.
    Coverage(Seq<(u32, u32)>, Seq<Felt>),
    /// A failed execution of an input, with its signature.
    Crash(Seq<char>, Seq<Felt>),
    /// One more executed case.
    Case,
    /// One more finished worker.
    Finish,
}

impl State {
    /// The ledger at the start of a campaign.
    pub open spec fn empty() -> State {
        State {
            coverage: Map::empty(),
            input_set: Set::empty(),
            input_list: Seq::empty(),
            input_len: 0,
            crashes: 0,
            crash_map: Map::empty(),
            crash_counts: Map::empty(),
            fuzz_cases: 0,
            finished: 0,
        }
    }

    /// What holds of every ledger and every worker's cache: the count is the
    /// length of the list, the list holds no input twice, and every listed
    /// input and every representative is in the input set.
    pub open spec fn wf(self) -> bool {
        &&& self.input_len == self.input_list.len()
        &&& self.input_list.no_duplicates()
        &&& forall|i: int|
            0 <= i < self.input_list.len() ==> self.input_set.contains(#[trigger] self.input_list[i])
        &&& forall|f: Seq<(u32, u32)>| #[trigger]
            self.coverage.contains_key(f) ==> self.input_set.contains(self.coverage[f])
        &&& forall|s: Seq<char>| #[trigger]
            self.crash_map.contains_key(s) ==> self.input_set.contains(self.crash_map[s])
    }

    /// What holds of the shared ledger beyond `wf`: the input set is what the
    /// list holds, every signature with a representative has a count and the
    /// other way round, and no count is zero or above the number of crashes.
    pub open spec fn is_shared(self) -> bool {
        &&& self.wf()
        &&& forall|x: Seq<Felt>| #[trigger]
            self.input_set.contains(x) ==> self.input_list.contains(x)
        &&& forall|s: Seq<char>| #[trigger]
            self.crash_map.contains_key(s) <==> self.crash_counts.contains_key(s)
        &&& forall|s: Seq<char>| #[trigger]
            self.crash_counts.contains_key(s) ==> 1 <= self.crash_counts[s] <= self.crashes
    }

    /// Whether each 64-bit counter has room for one more.
    pub open spec fn has_room(self) -> bool {
        self.crashes < u64::MAX && self.fuzz_cases < u64::MAX && self.finished < u64::MAX
    }

    /// The input is accepted: appended and counted unless it is already in
    /// the input set.
    pub open spec fn accept(self, input: Seq<Felt>) -> State {
        if self.input_set.contains(input) {
            self
        } else {
            State {
                input_set: self.input_set.insert(input),
                input_list: self.input_list.push(input),
                input_len: self.input_len + 1,
                ..self
            }
        }
    }

    /// A successful execution is committed: a fingerprint that is not yet
    /// covered gets the input as its representative and the input is
    /// accepted; a covered one changes nothing.
    pub open spec fn commit_coverage(self, fingerprint: Seq<(u32, u32)>, input: Seq<Felt>) -> State {
        if self.coverage.contains_key(fingerprint) {
            self
        } else {
            State { coverage: self.coverage.insert(fingerprint, input), ..self.accept(input) }
        }
    }

    /// A failed execution is committed: it is counted, the input is accepted,
    /// a signature seen for the first time gets the input as its
    /// representative and the count 1, and one seen before is counted once
    /// more.
    pub open spec fn commit_crash(self, signature: Seq<char>, input: Seq<Felt>) -> State {
        let accepted = self.accept(input);
        State {
            crashes: self.crashes + 1,
            crash_map: if self.crash_map.contains_key(signature) {
                self.crash_map
            } else {
                self.crash_map.insert(signature, input)
            },
            crash_counts: if self.crash_counts.contains_key(signature) {
                self.crash_counts.insert(signature, self.crash_counts[signature] + 1)
            } else {
                self.crash_counts.insert(signature, 1)
            },
            ..accepted
        }
    }

    /// One more executed case.
    pub open spec fn count_case(self) -> State {
        State { fuzz_cases: self.fuzz_cases + 1, ..self }
    }

    /// One more finished worker.
    pub open spec fn finish(self) -> State {
        State { finished: self.finished + 1, ..self }
    }

    /// A worker's cache notes coverage: the input joins the cache's input
    /// set, and stands for the fingerprint unless the cache holds a
    /// representative for it.
    pub open spec fn note_coverage(self, fingerprint: Seq<(u32, u32)>, input: Seq<Felt>) -> State {
        State {
            input_set: self.input_set.insert(input),
            coverage: if self.coverage.contains_key(fingerprint) {
                self.coverage
            } else {
                self.coverage.insert(fingerprint, input)
            },
            ..self
        }
    }

    /// A worker's cache notes a failure: it is counted, the input joins the
    /// cache's input set, and a signature seen for the first time gets the
    /// input as its representative.
    pub open spec fn note_crash(self, signature: Seq<char>, input: Seq<Felt>) -> State {
        State {
            crashes: self.crashes + 1,
            input_set: self.input_set.insert(input),
            crash_map: if self.crash_map.contains_key(signature) {
                self.crash_map
            } else {
                self.crash_map.insert(signature, input)
            },
            ..self
        }
    }

    /// A worker's cache after it looked at the shared ledger: where the two
    /// input counts differ, the cache takes over the ledger's coverage map,
    /// input set, input list, input count, crash count and crash map; where
    /// they agree, it stays as it is.
    pub open spec fn refreshed(self, shared: State) -> State {
        if self.input_len != shared.input_len {
            State {
                coverage: shared.coverage,
                input_set: shared.input_set,
                input_list: shared.input_list,
                input_len: shared.input_len,
                crashes: shared.crashes,
                crash_map: shared.crash_map,
                ..self
            }
        } else {
            self
        }
    }

    /// The ledger after one operation.
    pub open spec fn apply(self, op: Op) -> State {
        match op {
            Op::Coverage(f, x) => self.commit_coverage(f, x),
            Op::Crash(s, x) => self.commit_crash(s, x),
            Op::Case => self.count_case(),
            Op::Finish => self.finish(),
        }
    }

    /// The ledger after a sequence of operations, first to last.
    pub open spec fn apply_all(self, ops: Seq<Op>) -> State
        decreases ops.len(),
    {
        if ops.len() == 0 {
            self
        } else {
            self.apply_all(ops.drop_last()).apply(ops.last())
        }
    }
}

/// A cache that looked at a ledger is still a well-formed cache.
pub proof fn lemma_refreshed_is_wf(cache: State, shared: State)
    requires
        cache.wf(),
        shared.wf(),
    ensures
        cache.refreshed(shared).wf(),
        cache.refreshed(shared).input_len == shared.input_len,
{
}

/// Noting coverage or a failure keeps a cache well-formed.
pub proof fn lemma_notes_keep_wf(
    cache: State,
    fingerprint: Seq<(u32, u32)>,
    signature: Seq<char>,
    input: Seq<Felt>,
)
    requires
        cache.wf(),
    ensures
        cache.note_coverage(fingerprint, input).wf(),
        cache.note_crash(signature, input).wf(),
{
}

/// Accepting an input keeps a shared ledger a shared ledger.
pub proof fn lemma_accept_keeps_shared(m: State, input: Seq<Felt>)
    requires
        m.is_shared(),
    ensures
        m.accept(input).is_shared(),
        m.accept(input).input_set.contains(input),
        m.accept(input).input_len == m.accept(input).input_list.len(),
{
    let n = m.accept(input);
    if !m.input_set.contains(input) {
        assert forall|i: int, j: int|
            0 <= i < n.input_list.len() && 0 <= j < n.input_list.len() && i != j implies n.input_list[i]
            != n.input_list[j] by {
            if i < m.input_list.len() {
                assert(m.input_set.contains(m.input_list[i]));
            }
            if j < m.input_list.len() {
                assert(m.input_set.contains(m.input_list[j]));
            }
        }
        assert forall|x: Seq<Felt>| #[trigger] n.input_set.contains(x) implies n.input_list.contains(
            x,
        ) by {
            if x == input {
                assert(n.input_list[m.input_list.len() as int] == input);
            } else {
                assert(m.input_list.contains(x));
                let i = choose|i: int| 0 <= i < m.input_list.len() && m.input_list[i] == x;
                assert(n.input_list[i] == x);
            }
        }
    }
}

/// Every operation keeps a shared ledger a shared ledger; in particular the
/// length of the input list stays equal to the input count.
pub proof fn lemma_apply_keeps_shared(m: State, op: Op)
    requires
        m.is_shared(),
    ensures
        m.apply(op).is_shared(),
        m.apply(op).input_list.len() == m.apply(op).input_len,
{
    match op {
        Op::Coverage(f, x) => {
            lemma_accept_keeps_shared(m, x);
        },
        Op::Crash(s, x) => {
            lemma_accept_keeps_shared(m, x);
        },
        Op::Case => {},
        Op::Finish => {},
    }
}

/// After any sequence of operations on the ledger of a fresh campaign, in
/// whatever order the workers' operations arrived, the length of the input
/// list equals the input count.
pub proof fn lemma_count_matches_list(ops: Seq<Op>)
    ensures
        State::empty().apply_all(ops).is_shared(),
        State::empty().apply_all(ops).input_list.len() == State::empty().apply_all(ops).input_len,
    decreases ops.len(),
{
    if ops.len() > 0 {
        lemma_count_matches_list(ops.drop_last());
        lemma_apply_keeps_shared(State::empty().apply_all(ops.drop_last()), ops.last());
    }
}

/// The same from any shared ledger on.
pub proof fn lemma_apply_all_keeps_shared(m: State, ops: Seq<Op>)
    requires
        m.is_shared(),
    ensures
        m.apply_all(ops).is_shared(),
        m.apply_all(ops).input_list.len() == m.apply_all(ops).input_len,
    decreases ops.len(),
{
    if ops.len() > 0 {
        lemma_apply_all_keeps_shared(m, ops.drop_last());
        lemma_apply_keeps_shared(m.apply_all(ops.drop_last()), ops.last());
    }
}

/// Of two inputs committed with one fingerprint, the first stays the
/// representative.
pub proof fn lemma_first_commit_wins(
    m: State,
    fingerprint: Seq<(u32, u32)>,
    first: Seq<Felt>,
    second: Seq<Felt>,
)
    requires
        !m.coverage.contains_key(fingerprint),
    ensures
        m.commit_coverage(fingerprint, first).coverage[fingerprint] == first,
        m.commit_coverage(fingerprint, first).commit_coverage(fingerprint, second)
            == m.commit_coverage(fingerprint, first),
{
}

/// Once a fingerprint has a representative, no operation replaces it.
pub proof fn lemma_representative_stays(m: State, fingerprint: Seq<(u32, u32)>, op: Op)
    requires
        m.coverage.contains_key(fingerprint),
    ensures
        m.apply(op).coverage.contains_key(fingerprint),
        m.apply(op).coverage[fingerprint] == m.coverage[fingerprint],
{
}

/// Once a fingerprint has a representative, no sequence of operations, in
/// whatever order they arrive, replaces it.
pub proof fn lemma_representative_is_final(m: State, fingerprint: Seq<(u32, u32)>, ops: Seq<Op>)
    requires
        m.coverage.contains_key(fingerprint),
    ensures
        m.apply_all(ops).coverage.contains_key(fingerprint),
        m.apply_all(ops).coverage[fingerprint] == m.coverage[fingerprint],
    decreases ops.len(),
{
    if ops.len() > 0 {
        lemma_representative_is_final(m, fingerprint, ops.drop_last());
        lemma_representative_stays(m.apply_all(ops.drop_last()), fingerprint, ops.last());
    }
}

/// Once a failure signature has a representative, no operation replaces it,
/// and its count never goes down.
pub proof fn lemma_crash_representative_stays(m: State, signature: Seq<char>, op: Op)
    requires
        m.crash_map.contains_key(signature),
        m.crash_counts.contains_key(signature),
    ensures
        m.apply(op).crash_map.contains_key(signature),
        m.apply(op).crash_map[signature] == m.crash_map[signature],
        m.apply(op).crash_counts.contains_key(signature),
        m.apply(op).crash_counts[signature] >= m.crash_counts[signature],
{
}

/// A failure seen twice with one signature, from a ledger that had not seen
/// it, leaves one representative, the first input, and the count 2.
pub proof fn lemma_crash_twice(
    m: State,
    signature: Seq<char>,
    first: Seq<Felt>,
    second: Seq<Felt>,
)
    requires
        m.is_shared(),
        !m.crash_map.contains_key(signature),
    ensures
        m.commit_crash(signature, first).commit_crash(signature, second).crash_map[signature]
            == first,
        m.commit_crash(signature, first).commit_crash(signature, second).crash_counts[signature]
            == 2,
        m.commit_crash(signature, first).commit_crash(signature, second).crashes == m.crashes + 2,
{
}

} // verus!
