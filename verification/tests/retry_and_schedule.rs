use hls_fetch::pipeline::plan_downloads;
use hls_fetch::error::PipelineError;
use hls_fetch::retry::{
    failure_of, is_attempting, replay, start, step, RetryAction, RetryState, BACKOFF_SECONDS,
};
use hls_fetch::scheduler::{
    find_failure, judge_batch, next_batch, simulate, Batch, BatchVerdict, RunOutcome,
};

#[test]
fn backoff_is_one_second() {
    assert_eq!(BACKOFF_SECONDS, 1);
}

#[test]
fn retry_starts_with_an_attempt() {
    assert_eq!(start(), RetryState::Attempting(0));
    assert!(is_attempting(start()));
    assert!(!is_attempting(RetryState::Succeeded));
    assert!(!is_attempting(RetryState::Failed));
}

#[test]
fn retry_success_stores() {
    assert_eq!(step(RetryState::Attempting(0), true, 3), (RetryState::Succeeded, RetryAction::Store));
    assert_eq!(step(RetryState::Attempting(3), true, 3), (RetryState::Succeeded, RetryAction::Store));
}

#[test]
fn retry_failure_within_budget_backs_off() {
    assert_eq!(step(RetryState::Attempting(0), false, 3), (RetryState::Attempting(1), RetryAction::Backoff));
    assert_eq!(step(RetryState::Attempting(2), false, 3), (RetryState::Attempting(3), RetryAction::Backoff));
}

#[test]
fn retry_failure_beyond_budget_gives_up() {
    assert_eq!(step(RetryState::Attempting(3), false, 3), (RetryState::Failed, RetryAction::GiveUp));
    assert_eq!(step(RetryState::Attempting(0), false, 0), (RetryState::Failed, RetryAction::GiveUp));
    assert_eq!(
        step(RetryState::Attempting(u32::MAX), false, u32::MAX),
        (RetryState::Failed, RetryAction::GiveUp)
    );
}

#[test]
fn retry_stopped_machine_ignores_outcomes() {
    for fetched in [true, false] {
        assert_eq!(step(RetryState::Succeeded, fetched, 3), (RetryState::Succeeded, RetryAction::Ignore));
        assert_eq!(step(RetryState::Failed, fetched, 3), (RetryState::Failed, RetryAction::Ignore));
    }
}

#[test]
fn retry_bound_accepts_success_after_max_failures() {
    assert_eq!(replay(&vec![false, false, false, true], 3), RetryState::Succeeded);
    assert_eq!(replay(&vec![true], 0), RetryState::Succeeded);
}

#[test]
fn retry_bound_fails_after_one_failure_more() {
    assert_eq!(replay(&vec![false, false, false, false], 3), RetryState::Failed);
    assert_eq!(replay(&vec![false, false, false, false, true], 3), RetryState::Failed);
    assert_eq!(replay(&vec![false], 0), RetryState::Failed);
}

#[test]
fn retry_replay_counts_failures() {
    assert_eq!(replay(&vec![], 3), RetryState::Attempting(0));
    assert_eq!(replay(&vec![false, false], 3), RetryState::Attempting(2));
    assert_eq!(replay(&vec![false, true, false], 3), RetryState::Succeeded);
}

#[test]
fn next_batch_cuts_consecutive_ranges() {
    assert_eq!(next_batch(7, 3, 0), Some(Batch { start: 0, end: 3 }));
    assert_eq!(next_batch(7, 3, 3), Some(Batch { start: 3, end: 6 }));
    assert_eq!(next_batch(7, 3, 6), Some(Batch { start: 6, end: 7 }));
    assert_eq!(next_batch(7, 3, 7), None);
    assert_eq!(next_batch(0, 3, 0), None);
    assert_eq!(next_batch(2, 10, 0), Some(Batch { start: 0, end: 2 }));
    assert_eq!(next_batch(usize::MAX, usize::MAX, 1), Some(Batch { start: 1, end: usize::MAX }));
}

#[test]
fn find_failure_gives_first_or_end() {
    let ok = vec![true, false, true, false];
    assert_eq!(find_failure(&ok, 0, 4), 1);
    assert_eq!(find_failure(&ok, 2, 4), 3);
    assert_eq!(find_failure(&ok, 2, 3), 3);
    assert_eq!(find_failure(&ok, 0, 0), 0);
}

#[test]
fn judge_batch_continues_after_success() {
    assert_eq!(judge_batch(3, &vec![true, true, true]), BatchVerdict::Continue { next: 6 });
    assert_eq!(judge_batch(3, &vec![]), BatchVerdict::Continue { next: 3 });
}

#[test]
fn judge_batch_aborts_at_first_failure() {
    assert_eq!(judge_batch(3, &vec![true, false, false]), BatchVerdict::Abort { failed: 4 });
    assert_eq!(judge_batch(0, &vec![false]), BatchVerdict::Abort { failed: 0 });
}

#[test]
fn simulate_completes_when_all_succeed() {
    assert_eq!(simulate(&vec![true; 7], 3), RunOutcome::Completed);
    assert_eq!(simulate(&vec![], 3), RunOutcome::Completed);
}

#[test]
fn simulate_never_requests_batches_after_a_failure() {
    // Task 4 (the fifth segment) fails: its batch is 3..6, so 6 and later are never requested.
    let mut ok = vec![true; 10];
    ok[4] = false;
    assert_eq!(simulate(&ok, 3), RunOutcome::Aborted { failed: 4, requested: 6 });
    ok[8] = false;
    assert_eq!(simulate(&ok, 3), RunOutcome::Aborted { failed: 4, requested: 6 });
    assert_eq!(simulate(&ok, 1), RunOutcome::Aborted { failed: 4, requested: 5 });
    assert_eq!(simulate(&ok, 100), RunOutcome::Aborted { failed: 4, requested: 10 });
}

#[test]
fn simulate_failure_in_last_short_batch() {
    let mut ok = vec![true; 7];
    ok[6] = false;
    assert_eq!(simulate(&ok, 3), RunOutcome::Aborted { failed: 6, requested: 7 });
}

#[test]
fn end_to_end_example_requests_in_order() {
    let text = "#EXTM3U\nseg1.ts?tok=a\nseg2.ts?tok=b\n";
    let tasks = plan_downloads(text, "https://host/path", "out").unwrap();
    let mut requested = Vec::new();
    let mut from = 0;
    while let Some(batch) = next_batch(tasks.len(), 1, from) {
        assert_eq!(batch.end - batch.start, 1);
        let mut results = Vec::new();
        for task in &tasks[batch.start..batch.end] {
            requested.push((task.fetch_url.clone(), task.local_filename.clone()));
            results.push(true);
        }
        match judge_batch(batch.start, &results) {
            BatchVerdict::Continue { next } => from = next,
            BatchVerdict::Abort { failed } => panic!("task {} failed", failed),
        }
    }
    assert_eq!(
        requested,
        vec![
            ("https://host/path/seg1.ts?tok=a".to_string(), "seg1.ts".to_string()),
            ("https://host/path/seg2.ts?tok=b".to_string(), "seg2.ts".to_string()),
        ]
    );
}

#[test]
fn failed_fetch_reports_exhausted_retries() {
    let state = replay(&vec![false, false], 1);
    match failure_of(state, "https://h/a.ts?t=1", "connection reset") {
        Some(PipelineError::RetriesExhausted { url, last_error }) => {
            assert_eq!(url, "https://h/a.ts?t=1");
            assert_eq!(last_error, "connection reset");
        }
        other => panic!("{:?}", other),
    }
}

#[test]
fn fetch_that_has_not_failed_reports_nothing() {
    assert!(failure_of(RetryState::Succeeded, "u", "e").is_none());
    assert!(failure_of(RetryState::Attempting(2), "u", "e").is_none());
}
