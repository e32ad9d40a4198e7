use cairo_fuzz::field::Felt;
use cairo_fuzz::stats::{input_of, same_fingerprint, same_input, CoverageOutcome, Statistics};
use cairo_fuzz::worker::{
    fingerprint_of, replay, Execution, InternalError, Processed, Run, Worker,
};
use std::sync::Arc;

fn input(values: &[u64]) -> Arc<Vec<Felt>> {
    Arc::new(values.iter().map(|v| Felt::from_u64(*v)).collect())
}

fn values(input: &Arc<Vec<Felt>>) -> Vec<[u8; 32]> {
    input.iter().map(|f| f.to_bytes_be()).collect()
}

fn text(s: &str) -> String {
    String::from(s)
}

#[test]
fn a_fresh_ledger_is_empty() {
    let ledger = Statistics::new();
    assert_eq!(ledger.input_len(), 0);
    assert_eq!(ledger.inputs().len(), 0);
    assert_eq!(ledger.crashes(), 0);
    assert_eq!(ledger.fuzz_cases(), 0);
    assert_eq!(ledger.finished(), 0);
    assert!(!ledger.knows_coverage(&vec![(1, 2)]));
    assert!(ledger.representative(&vec![(1, 2)]).is_none());
    assert!(!ledger.has_input(&input(&[1])));
    assert_eq!(ledger.crash_count(&text("DivisionByZero")), 0);
    assert!(ledger.crash_representative(&text("DivisionByZero")).is_none());
    assert!(ledger.has_room());
}

#[test]
fn same_fingerprint_compares_edge_by_edge() {
    assert!(same_fingerprint(&vec![(1, 2), (3, 4)], &vec![(1, 2), (3, 4)]));
    assert!(!same_fingerprint(&vec![(1, 2), (3, 4)], &vec![(1, 2), (3, 5)]));
    assert!(!same_fingerprint(&vec![(1, 2), (3, 4)], &vec![(3, 4), (1, 2)]));
    assert!(!same_fingerprint(&vec![(1, 2)], &vec![(1, 2), (1, 2)]));
    assert!(same_fingerprint(&Vec::new(), &Vec::new()));
}

#[test]
fn same_input_compares_element_by_element() {
    assert!(same_input(&input(&[1, 2]), &input(&[1, 2])));
    assert!(!same_input(&input(&[1, 2]), &input(&[2, 1])));
    assert!(!same_input(&input(&[1, 2]), &input(&[1])));
    assert!(same_input(&input(&[]), &input(&[])));
}

#[test]
fn first_committed_input_stays_the_representative() {
    let mut ledger = Statistics::new();
    let f1 = vec![(0u32, 4u32), (4, 9)];
    let a = input(&[1, 2, 3]);
    let b = input(&[4, 5, 6]);
    assert_eq!(ledger.record_coverage(&f1, &a, false), CoverageOutcome::Added);
    assert_eq!(ledger.record_coverage(&f1, &b, false), CoverageOutcome::Known);
    assert_eq!(ledger.record_coverage(&f1, &a, false), CoverageOutcome::Known);
    let kept = ledger.representative(&f1).unwrap();
    assert_eq!(values(&kept), values(&a));
    assert!(ledger.knows_coverage(&f1));
    // the other order keeps the other input
    let mut other = Statistics::new();
    other.record_coverage(&f1, &b, false);
    other.record_coverage(&f1, &a, false);
    assert_eq!(values(&other.representative(&f1).unwrap()), values(&b));
}

#[test]
fn second_input_with_a_known_fingerprint_is_not_stored() {
    let mut ledger = Statistics::new();
    let f1 = vec![(7u32, 8u32)];
    let a = input(&[10]);
    let b = input(&[20]);
    ledger.record_coverage(&f1, &a, false);
    ledger.record_coverage(&f1, &b, false);
    assert!(ledger.has_input(&a));
    assert!(!ledger.has_input(&b));
    assert_eq!(ledger.input_len(), 1);
    assert_eq!(ledger.inputs().len(), 1);
    assert_eq!(values(&ledger.inputs()[0]), values(&a));
    assert_eq!(values(&ledger.representative(&f1).unwrap()), values(&a));
}

#[test]
fn minimizer_reports_that_removal_is_not_implemented() {
    let mut ledger = Statistics::new();
    let f1 = vec![(7u32, 8u32)];
    assert_eq!(ledger.record_coverage(&f1, &input(&[1]), true), CoverageOutcome::Added);
    assert_eq!(
        ledger.record_coverage(&f1, &input(&[2]), true),
        CoverageOutcome::RemovalNotImplemented
    );
    assert_eq!(ledger.input_len(), 1);
    assert!(!ledger.has_input(&input(&[2])));
}

#[test]
fn one_input_with_two_fingerprints_is_listed_once() {
    let mut ledger = Statistics::new();
    let a = input(&[1]);
    assert_eq!(ledger.record_coverage(&vec![(1, 2)], &a, false), CoverageOutcome::Added);
    assert_eq!(ledger.record_coverage(&vec![(3, 4)], &a, false), CoverageOutcome::Added);
    assert_eq!(ledger.input_len(), 1);
    assert_eq!(ledger.inputs().len(), 1);
    assert_eq!(values(&ledger.representative(&vec![(3, 4)]).unwrap()), values(&a));
}

#[test]
fn input_count_equals_list_length_after_every_operation() {
    let mut ledger = Statistics::new();
    let mut expected = 0usize;
    for i in 0..40u64 {
        let x = input(&[i % 7, i % 3]);
        let known = ledger.has_input(&x);
        if i % 4 == 0 {
            ledger.record_crash(&format!("failure {}", i % 5), &x);
            if !known {
                expected += 1;
            }
        } else {
            let f = vec![((i % 6) as u32, 1u32)];
            let covered = ledger.knows_coverage(&f);
            ledger.record_coverage(&f, &x, i % 2 == 0);
            if !covered && !known {
                expected += 1;
            }
        }
        ledger.count_case();
        assert_eq!(ledger.input_len(), ledger.inputs().len());
        assert_eq!(ledger.input_len(), expected);
    }
    ledger.mark_finished();
    assert_eq!(ledger.input_len(), ledger.inputs().len());
    assert_eq!(ledger.fuzz_cases(), 40);
    assert_eq!(ledger.finished(), 1);
}

#[test]
fn inputs_are_listed_in_the_order_of_acceptance() {
    let mut ledger = Statistics::new();
    ledger.record_coverage(&vec![(1, 1)], &input(&[3]), false);
    ledger.record_crash(&text("boom"), &input(&[1]));
    ledger.record_coverage(&vec![(2, 2)], &input(&[2]), false);
    ledger.record_crash(&text("boom"), &input(&[3]));
    let listed: Vec<Vec<[u8; 32]>> = ledger.inputs().iter().map(values).collect();
    assert_eq!(listed, vec![values(&input(&[3])), values(&input(&[1])), values(&input(&[2]))]);
}

#[test]
fn a_failure_seen_twice_has_one_entry_and_count_two() {
    let mut ledger = Statistics::new();
    let x = input(&[5, 0]);
    let first = ledger.record_crash(&text("DivisionByZero"), &x);
    let second = ledger.record_crash(&text("DivisionByZero"), &x);
    assert!(first);
    assert!(!second);
    assert_eq!(ledger.crash_count(&text("DivisionByZero")), 2);
    assert_eq!(ledger.crashes(), 2);
    assert_eq!(values(&ledger.crash_representative(&text("DivisionByZero")).unwrap()), values(&x));
    assert_eq!(ledger.input_len(), 1);
    assert_eq!(ledger.crash_count(&text("Other")), 0);
}

#[test]
fn a_failure_from_two_workers_is_reported_once() {
    let mut ledger = Statistics::new();
    let mut one = Worker::new(1);
    let mut two = Worker::new(2);
    let x = input(&[5, 0]);
    let y = input(&[6, 0]);
    let first = one.process_failure(&mut ledger, &text("DivisionByZero"), &x);
    let second = two.process_failure(&mut ledger, &text("DivisionByZero"), &y);
    let report = first.unwrap();
    assert_eq!(report.worker_id, 1);
    assert_eq!(report.detail, "DivisionByZero");
    assert_eq!(values(&report.input), values(&x));
    assert!(second.is_none());
    assert_eq!(ledger.crash_count(&text("DivisionByZero")), 2);
    assert_eq!(ledger.crashes(), 2);
    assert_eq!(ledger.fuzz_cases(), 2);
    // the first input stays the representative
    assert_eq!(values(&ledger.crash_representative(&text("DivisionByZero")).unwrap()), values(&x));
    assert_eq!(ledger.input_len(), 2);
    assert_eq!(one.local().crashes(), 1);
    assert_eq!(two.local().crashes(), 1);
    assert_eq!(two.local().fuzz_cases(), 1);
}

#[test]
fn distinct_signatures_are_counted_apart() {
    let mut ledger = Statistics::new();
    assert!(ledger.record_crash(&text("a"), &input(&[1])));
    assert!(ledger.record_crash(&text("b"), &input(&[2])));
    assert!(!ledger.record_crash(&text("a"), &input(&[3])));
    assert!(!ledger.record_crash(&text("a"), &input(&[1])));
    assert_eq!(ledger.crash_count(&text("a")), 3);
    assert_eq!(ledger.crash_count(&text("b")), 1);
    assert_eq!(ledger.crashes(), 4);
    assert_eq!(ledger.input_len(), 3);
    assert_eq!(values(&ledger.crash_representative(&text("a")).unwrap()), values(&input(&[1])));
    assert_eq!(values(&ledger.crash_representative(&text("b")).unwrap()), values(&input(&[2])));
}

#[test]
fn a_representative_is_the_input_that_was_handed_in() {
    let mut ledger = Statistics::new();
    let a = input(&[11, 22, 33]);
    ledger.record_coverage(&vec![(1, 2)], &a, false);
    let kept = ledger.representative(&vec![(1, 2)]).unwrap();
    assert!(Arc::ptr_eq(&kept, &a));
    assert_eq!(input_of(&kept).len(), 3);
    assert!(Arc::ptr_eq(&ledger.inputs()[0], &a));
}

#[test]
fn cache_notes_do_not_touch_the_input_list() {
    let mut cache = Statistics::new();
    cache.note_coverage(&vec![(1, 2)], &input(&[1]));
    cache.note_crash(&text("boom"), &input(&[2]));
    assert!(cache.knows_coverage(&vec![(1, 2)]));
    assert!(cache.has_input(&input(&[1])));
    assert!(cache.has_input(&input(&[2])));
    assert_eq!(cache.input_len(), 0);
    assert_eq!(cache.inputs().len(), 0);
    assert_eq!(cache.crashes(), 1);
    assert_eq!(values(&cache.crash_representative(&text("boom")).unwrap()), values(&input(&[2])));
    // a second note keeps the first representative
    cache.note_coverage(&vec![(1, 2)], &input(&[9]));
    cache.note_crash(&text("boom"), &input(&[8]));
    assert_eq!(values(&cache.representative(&vec![(1, 2)]).unwrap()), values(&input(&[1])));
    assert_eq!(values(&cache.crash_representative(&text("boom")).unwrap()), values(&input(&[2])));
    assert_eq!(cache.crashes(), 2);
}

#[test]
fn refresh_replaces_the_cache_only_when_counts_differ() {
    let mut ledger = Statistics::new();
    let mut cache = Statistics::new();
    // same count (0 and 0): nothing is taken over, not even a new crash count
    assert!(!cache.refresh_from(&ledger));
    ledger.record_coverage(&vec![(1, 2)], &input(&[1]), false);
    ledger.record_crash(&text("boom"), &input(&[1]));
    ledger.count_case();
    assert!(cache.refresh_from(&ledger));
    assert_eq!(cache.input_len(), 1);
    assert!(cache.knows_coverage(&vec![(1, 2)]));
    assert!(cache.has_input(&input(&[1])));
    assert_eq!(cache.crashes(), 1);
    assert!(cache.crash_representative(&text("boom")).is_some());
    // counts and case numbers are not part of what is copied
    assert_eq!(cache.crash_count(&text("boom")), 0);
    assert_eq!(cache.fuzz_cases(), 0);
    // a crash with a known input changes no input count: the cache stays stale
    ledger.record_crash(&text("bang"), &input(&[1]));
    assert!(!cache.refresh_from(&ledger));
    assert!(cache.crash_representative(&text("bang")).is_none());
    assert_eq!(cache.crashes(), 1);
}

#[test]
fn fingerprint_of_narrows_the_offsets() {
    let f = fingerprint_of(&vec![(0, 4), (4, 9), (0xffff_ffff, 1)]).unwrap();
    assert_eq!(f, vec![(0u32, 4u32), (4, 9), (0xffff_ffff, 1)]);
    assert_eq!(fingerprint_of(&Vec::new()).unwrap(), Vec::<(u32, u32)>::new());
}

#[test]
fn fingerprint_of_refuses_an_offset_that_does_not_fit() {
    if usize::BITS > 32 {
        let wide = 0xffff_ffffusize + 1;
        assert_eq!(
            fingerprint_of(&vec![(0, 4), (wide, 9), (wide, wide)]),
            Err(InternalError::OffsetOutOfRange(1))
        );
        assert_eq!(fingerprint_of(&vec![(0, wide)]), Err(InternalError::OffsetOutOfRange(0)));
    }
}

#[test]
fn a_worker_commits_what_is_new_to_its_cache() {
    let mut ledger = Statistics::new();
    let mut worker = Worker::new(3);
    assert_eq!(worker.id(), 3);
    let f1 = vec![(1u32, 2u32)];
    let a = input(&[1]);
    let b = input(&[2]);
    assert_eq!(worker.process_success(&mut ledger, &f1, &a, false), CoverageOutcome::Added);
    assert_eq!(worker.process_success(&mut ledger, &f1, &b, false), CoverageOutcome::Known);
    assert_eq!(values(&ledger.representative(&f1).unwrap()), values(&a));
    assert!(ledger.has_input(&a));
    assert!(!ledger.has_input(&b));
    assert_eq!(ledger.input_len(), 1);
    assert_eq!(ledger.fuzz_cases(), 2);
    assert_eq!(worker.local().fuzz_cases(), 2);
    assert!(worker.local().knows_coverage(&f1));
}

#[test]
fn the_ledger_decides_when_the_cache_is_stale() {
    let mut ledger = Statistics::new();
    let mut one = Worker::new(1);
    let mut two = Worker::new(2);
    let f1 = vec![(1u32, 2u32)];
    let f2 = vec![(5u32, 6u32)];
    let a = input(&[1]);
    let b = input(&[2]);
    // worker one commits f1, and on its next input takes over the ledger,
    // so that its cache has the input count 1
    one.process_success(&mut ledger, &f1, &a, false);
    one.process_success(&mut ledger, &f1, &a, false);
    assert_eq!(one.local().input_len(), 1);
    // worker two commits f2 with an input that the ledger already holds:
    // the input count stays 1, so worker one's cache does not see f2
    two.process_success(&mut ledger, &f2, &a, false);
    assert_eq!(ledger.input_len(), 1);
    assert!(!one.local().knows_coverage(&f2));
    // worker one finds f2 new to its cache, and the ledger says it is known
    assert_eq!(one.process_success(&mut ledger, &f2, &b, true), CoverageOutcome::RemovalNotImplemented);
    assert_eq!(values(&ledger.representative(&f2).unwrap()), values(&a));
    assert!(!ledger.has_input(&b));
    assert!(one.local().has_input(&b));
    assert_eq!(ledger.fuzz_cases(), 4);
}

#[test]
fn the_steps_of_a_worker_one_by_one() {
    let mut ledger = Statistics::new();
    let mut worker = Worker::new(9);
    let f1 = vec![(1u32, 2u32)];
    let a = input(&[1]);
    assert!(!worker.sync(&ledger));
    assert!(worker.note_coverage(&f1, &a));
    assert!(!worker.note_coverage(&f1, &a));
    assert_eq!(ledger.record_coverage(&f1, &a, false), CoverageOutcome::Added);
    worker.count_case(&mut ledger);
    assert!(worker.sync(&ledger));
    assert!(!worker.sync(&ledger));
    let report = worker.record_failure(&mut ledger, &text("boom"), &a);
    assert_eq!(report.unwrap().worker_id, 9);
    assert!(worker.record_failure(&mut ledger, &text("boom"), &a).is_none());
    worker.count_case(&mut ledger);
    worker.finish(&mut ledger);
    assert_eq!(ledger.fuzz_cases(), 2);
    assert_eq!(ledger.finished(), 1);
    assert_eq!(ledger.crashes(), 2);
    assert_eq!(worker.local().crashes(), 2);
}

#[test]
fn process_tells_coverage_from_failure() {
    let mut ledger = Statistics::new();
    let mut worker = Worker::new(4);
    let covered = Run { input: input(&[1]), execution: Execution::Completed(vec![(0, 4)]) };
    let again = Run { input: input(&[2]), execution: Execution::Completed(vec![(0, 4)]) };
    let failed = Run { input: input(&[3]), execution: Execution::Failed(text("boom")) };
    assert!(matches!(
        worker.process(&mut ledger, &covered, true),
        Ok(Processed::Covered(CoverageOutcome::Added))
    ));
    assert!(matches!(
        worker.process(&mut ledger, &again, true),
        Ok(Processed::Covered(CoverageOutcome::Known))
    ));
    match worker.process(&mut ledger, &failed, true) {
        Ok(Processed::Crashed(Some(report))) => {
            assert_eq!(report.worker_id, 4);
            assert_eq!(report.detail, "boom");
            assert_eq!(values(&report.input), values(&input(&[3])));
        }
        _ => panic!("a first failure is reported"),
    }
    assert!(matches!(
        worker.process(&mut ledger, &failed, true),
        Ok(Processed::Crashed(None))
    ));
    assert_eq!(ledger.fuzz_cases(), 4);
    assert_eq!(ledger.crashes(), 2);
    assert_eq!(ledger.input_len(), 2);
}

#[test]
fn process_refuses_a_trace_that_does_not_fit() {
    if usize::BITS > 32 {
        let mut ledger = Statistics::new();
        let mut worker = Worker::new(1);
        let run = Run { input: input(&[1]), execution: Execution::Completed(vec![(1 << 40, 0)]) };
        assert_eq!(
            worker.process(&mut ledger, &run, false).err(),
            Some(InternalError::OffsetOutOfRange(0))
        );
        assert_eq!(ledger.fuzz_cases(), 0);
        assert_eq!(ledger.input_len(), 0);
        assert_eq!(worker.local().fuzz_cases(), 0);
    }
}

#[test]
fn replay_processes_a_batch_and_finishes_once() {
    let mut ledger = Statistics::new();
    let runs = vec![
        Run { input: input(&[1]), execution: Execution::Completed(vec![(0, 4), (4, 9)]) },
        Run { input: input(&[2]), execution: Execution::Completed(vec![(0, 4), (4, 9)]) },
        Run { input: input(&[3]), execution: Execution::Failed(text("DivisionByZero")) },
        Run { input: input(&[4]), execution: Execution::Completed(vec![(0, 5)]) },
        Run { input: input(&[5]), execution: Execution::Failed(text("DivisionByZero")) },
        Run { input: input(&[6]), execution: Execution::Failed(text("OutOfGas")) },
    ];
    let reports = replay(7, &mut ledger, &runs, false).unwrap();
    assert_eq!(reports.len(), 2);
    assert_eq!(reports[0].worker_id, 7);
    assert_eq!(reports[0].detail, "DivisionByZero");
    assert_eq!(values(&reports[0].input), values(&input(&[3])));
    assert_eq!(reports[1].detail, "OutOfGas");
    assert_eq!(values(&reports[1].input), values(&input(&[6])));
    assert_eq!(ledger.fuzz_cases(), 6);
    assert_eq!(ledger.finished(), 1);
    assert_eq!(ledger.crashes(), 3);
    assert_eq!(ledger.crash_count(&text("DivisionByZero")), 2);
    assert_eq!(ledger.crash_count(&text("OutOfGas")), 1);
    // inputs 1 and 4 found coverage, 3, 5 and 6 crashed, 2 was redundant
    assert_eq!(ledger.input_len(), 5);
    assert!(!ledger.has_input(&input(&[2])));
    assert_eq!(values(&ledger.representative(&vec![(0, 4), (4, 9)]).unwrap()), values(&input(&[1])));
    assert_eq!(values(&ledger.representative(&vec![(0, 5)]).unwrap()), values(&input(&[4])));
}

#[test]
fn replay_of_two_workers_in_either_order() {
    let batch_one = vec![
        Run { input: input(&[1]), execution: Execution::Completed(vec![(0, 4)]) },
        Run { input: input(&[2]), execution: Execution::Failed(text("DivisionByZero")) },
    ];
    let batch_two = vec![
        Run { input: input(&[3]), execution: Execution::Completed(vec![(0, 4)]) },
        Run { input: input(&[4]), execution: Execution::Failed(text("DivisionByZero")) },
    ];
    let mut forward = Statistics::new();
    let r1 = replay(1, &mut forward, &batch_one, false).unwrap();
    let r2 = replay(2, &mut forward, &batch_two, false).unwrap();
    assert_eq!(r1.len() + r2.len(), 1);
    assert_eq!(values(&forward.representative(&vec![(0, 4)]).unwrap()), values(&input(&[1])));
    let mut backward = Statistics::new();
    let r2 = replay(2, &mut backward, &batch_two, false).unwrap();
    let r1 = replay(1, &mut backward, &batch_one, false).unwrap();
    assert_eq!(r1.len() + r2.len(), 1);
    assert_eq!(values(&backward.representative(&vec![(0, 4)]).unwrap()), values(&input(&[3])));
    for ledger in [&forward, &backward] {
        assert_eq!(ledger.crash_count(&text("DivisionByZero")), 2);
        assert_eq!(ledger.finished(), 2);
        assert_eq!(ledger.fuzz_cases(), 4);
        assert_eq!(ledger.input_len(), ledger.inputs().len());
        assert_eq!(ledger.input_len(), 3);
    }
}

#[test]
fn replay_stops_at_a_trace_that_does_not_fit() {
    if usize::BITS > 32 {
        let mut ledger = Statistics::new();
        let runs = vec![
            Run { input: input(&[1]), execution: Execution::Completed(vec![(0, 4)]) },
            Run { input: input(&[2]), execution: Execution::Completed(vec![(0, 1 << 33)]) },
            Run { input: input(&[3]), execution: Execution::Failed(text("boom")) },
        ];
        assert_eq!(
            replay(1, &mut ledger, &runs, false).err(),
            Some(InternalError::OffsetOutOfRange(0))
        );
        assert_eq!(ledger.fuzz_cases(), 1);
        assert_eq!(ledger.finished(), 0);
        assert_eq!(ledger.crashes(), 0);
        assert_eq!(ledger.input_len(), 1);
    }
}

#[test]
fn replay_of_an_empty_batch_only_finishes() {
    let mut ledger = Statistics::new();
    let reports = replay(1, &mut ledger, &Vec::new(), true).unwrap();
    assert!(reports.is_empty());
    assert_eq!(ledger.finished(), 1);
    assert_eq!(ledger.fuzz_cases(), 0);
}
