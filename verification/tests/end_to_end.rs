use s3_cp::address::CopyRequest;
use s3_cp::config::RunConfig;
use s3_cp::outcome::{CopyError, CopyOutcome, RowError};
use s3_cp::record::DecodeError;
use s3_cp::runner::Runner;
use s3_cp::scheduler::Action;
use s3_cp::tally::RunResult;

struct Run {
    requests: Vec<CopyRequest>,
    lines: Vec<String>,
    outcomes: Vec<CopyOutcome>,
    result: RunResult,
}

/// Runs an input against a store that refuses the copies of the given source
/// keys. The held copies complete oldest first or newest first.
fn run(input: &[u8], sync: bool, max_pending: usize, newest_first: bool, refused: &[&str]) -> Run {
    let runner = Runner::new(RunConfig { sync, show_verbose: false, max_pending });
    let mut scheduler = runner.run(input);
    let mut held: Vec<CopyRequest> = Vec::new();
    let mut requests = Vec::new();
    let mut lines = Vec::new();
    loop {
        match scheduler.next_action() {
            Action::Start(request) => {
                requests.push(request.clone());
                held.push(request);
            }
            Action::Rejected { .. } => {
                lines.push(scheduler.outcomes().last().unwrap().failure_line().unwrap());
            }
            Action::Wait => {
                let request = if newest_first { held.pop().unwrap() } else { held.remove(0) };
                let report = if refused.iter().any(|key| request.source.ends_with(key)) {
                    Err(CopyError { message: "access denied".to_string() })
                } else {
                    Ok(())
                };
                assert!(scheduler.complete(request.row, report));
                if let Some(line) = scheduler.outcomes().last().unwrap().failure_line() {
                    lines.push(line);
                }
            }
            Action::Finished => break,
        }
    }
    let result = scheduler.result().expect("the run is over");
    let outcomes = scheduler.finish().expect("the run is over");
    Run { requests, lines, outcomes, result }
}

fn request(row: u64, source: &str, copy_source: &str, dst_bucket: &str, dst_key: &str) -> CopyRequest {
    CopyRequest {
        row,
        source: source.to_string(),
        copy_source: copy_source.to_string(),
        dst_bucket: dst_bucket.to_string(),
        dst_key: dst_key.to_string(),
    }
}

#[test]
fn two_rows_and_a_comment_give_two_copies() {
    for newest_first in [false, true] {
        let done = run(b"b1,k1,b2\n#comment\nb1,k2,b2,k3\n", false, 4, newest_first, &[]);
        assert_eq!(
            done.requests,
            vec![request(1, "b1/k1", "b1%2Fk1", "b2", "k1"), request(2, "b1/k2", "b1%2Fk2", "b2", "k3")]
        );
        assert_eq!(done.result, RunResult { ok_cnt: 2, err_cnt: 0 });
        assert!(done.lines.is_empty());
        let mut rows: Vec<u64> = done.outcomes.iter().map(|outcome| outcome.row).collect();
        rows.sort();
        assert_eq!(rows, vec![1, 2]);
        assert!(done.outcomes.iter().all(|outcome| outcome.result == Ok(())));
    }
}

#[test]
fn completion_order_shows_in_the_outcomes_only() {
    let oldest = run(b"b1,k1,b2\n#comment\nb1,k2,b2,k3\n", false, 4, false, &[]);
    let newest = run(b"b1,k1,b2\n#comment\nb1,k2,b2,k3\n", false, 4, true, &[]);
    assert_eq!(oldest.outcomes, vec![CopyOutcome { row: 1, result: Ok(()) }, CopyOutcome { row: 2, result: Ok(()) }]);
    assert_eq!(newest.outcomes, vec![CopyOutcome { row: 2, result: Ok(()) }, CopyOutcome { row: 1, result: Ok(()) }]);
    assert_eq!(oldest.result, newest.result);
    assert_eq!(oldest.requests, newest.requests);
}

#[test]
fn empty_input_gives_zero_counts() {
    let done = run(b"", false, 4, false, &[]);
    assert_eq!(done.result, RunResult { ok_cnt: 0, err_cnt: 0 });
    assert!(done.requests.is_empty());
    assert!(done.outcomes.is_empty());
}

#[test]
fn input_of_comments_gives_zero_counts() {
    let done = run(b"#note,b,c,d\n# another\n", true, 128, false, &[]);
    assert_eq!(done.result, RunResult { ok_cnt: 0, err_cnt: 0 });
    assert!(done.requests.is_empty());
    assert!(done.outcomes.is_empty());
}

#[test]
fn a_comment_is_skipped_in_the_numbering() {
    let done = run(b"#note,b,c,d\nb1,k1,b2\n", false, 4, false, &["k1"]);
    assert_eq!(done.requests, vec![request(1, "b1/k1", "b1%2Fk1", "b2", "k1")]);
    assert_eq!(done.lines, vec!["1: access denied".to_string()]);
    assert_eq!(done.result, RunResult { ok_cnt: 0, err_cnt: 1 });
}

#[test]
fn a_short_row_fails_and_the_others_are_copied() {
    let done = run(b"b1,k1,b2\na,b\nb1,k2,b2,k3\n", false, 4, false, &[]);
    assert_eq!(
        done.requests,
        vec![request(1, "b1/k1", "b1%2Fk1", "b2", "k1"), request(3, "b1/k2", "b1%2Fk2", "b2", "k3")]
    );
    assert_eq!(done.lines, vec!["2: expected 3 or 4 fields, found 2".to_string()]);
    assert_eq!(
        done.outcomes,
        vec![
            CopyOutcome { row: 2, result: Err(RowError::Decode(DecodeError::FieldCount { found: 2 })) },
            CopyOutcome { row: 1, result: Ok(()) },
            CopyOutcome { row: 3, result: Ok(()) },
        ]
    );
    assert_eq!(done.result, RunResult { ok_cnt: 2, err_cnt: 1 });
}

#[test]
fn a_short_row_keeps_its_place_in_a_sequential_run() {
    let done = run(b"b1,k1,b2\na,b\nb1,k2,b2,k3\n", true, 4, false, &["k2"]);
    assert_eq!(
        done.outcomes,
        vec![
            CopyOutcome { row: 1, result: Ok(()) },
            CopyOutcome { row: 2, result: Err(RowError::Decode(DecodeError::FieldCount { found: 2 })) },
            CopyOutcome {
                row: 3,
                result: Err(RowError::Copy(CopyError { message: "access denied".to_string() })),
            },
        ]
    );
    assert_eq!(
        done.lines,
        vec!["2: expected 3 or 4 fields, found 2".to_string(), "3: access denied".to_string()]
    );
    assert_eq!(done.result, RunResult { ok_cnt: 1, err_cnt: 2 });
}

#[test]
fn the_source_of_a_request_is_percent_encoded() {
    let done = run(b"my bucket,obj#1,b2\n", false, 4, false, &[]);
    assert_eq!(done.requests, vec![request(1, "my bucket/obj#1", "my%20bucket%2Fobj%231", "b2", "obj#1")]);
    assert_eq!(done.result, RunResult { ok_cnt: 1, err_cnt: 0 });
}

#[test]
fn counts_cover_every_row_of_the_input() {
    let input = b"b1,k1,b2\nb1,k2,b2\n#skip\nx\nb1,k3,b2,k4\n\nb1,k5,b2\na,b,c,d,e\n";
    for max_pending in [0usize, 1, 2, 3, 128] {
        let done = run(input, false, max_pending, true, &["k3"]);
        assert_eq!(done.result, RunResult { ok_cnt: 3, err_cnt: 3 });
        assert_eq!(done.result.ok_cnt + done.result.err_cnt, 6);
        assert_eq!(done.outcomes.len(), 6);
    }
}

#[test]
fn a_runner_keeps_its_configuration() {
    let config = RunConfig { sync: true, show_verbose: true, max_pending: 9 };
    let runner = Runner::new(config.clone());
    assert_eq!(runner.config(), &config);
}

#[test]
fn a_run_starts_with_every_row_submitted_and_nothing_taken() {
    let runner = Runner::new(RunConfig { sync: false, show_verbose: false, max_pending: 3 });
    let scheduler = runner.run(b"b1,k1,b2\n#comment\na,b\nb1,k2,b2,k3\n");
    assert_eq!(scheduler.submitted(), 3);
    assert_eq!(scheduler.bound(), 3);
    assert_eq!(scheduler.running(), 0);
    assert!(scheduler.outcomes().is_empty());
    assert!(!scheduler.is_finished());
    let sequential = Runner::new(RunConfig { sync: true, show_verbose: false, max_pending: 3 });
    assert_eq!(sequential.run(b"b1,k1,b2\n").bound(), 1);
}

#[test]
fn a_runner_starts_one_run_after_the_other() {
    let runner = Runner::new(RunConfig { sync: false, show_verbose: false, max_pending: 2 });
    let mut first = runner.run(b"b1,k1,b2\n");
    let mut second = runner.run(b"");
    assert!(matches!(first.next_action(), Action::Start(request) if request.row == 1));
    assert_eq!(second.next_action(), Action::Finished);
    assert!(first.complete(1, Ok(())));
    assert_eq!(first.result(), Some(RunResult { ok_cnt: 1, err_cnt: 0 }));
    assert_eq!(second.result(), Some(RunResult { ok_cnt: 0, err_cnt: 0 }));
}
