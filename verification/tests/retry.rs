use rigtest::duration::Duration;
use rigtest::protocol::{
    decode_outcome, decode_skip_reason, decode_uncaptured, encode_skip, exit_code_reason,
    SubprocessOutcome, FAIL_NOT_RETRYABLE_EXIT_CODE, SKIP_EXIT_CODE,
};
use rigtest::registry::TestCase;
use rigtest::reporter::Outcome;
use rigtest::retry::{plan, AttemptPlan};
use rigtest::runner::{end_of_test, no_such_test, stage_error, Skip, Stage, TestReturn};
use rigtest::state::{state_to_load, StateHandoff};

fn case(retry_on_error_set: bool) -> TestCase {
    TestCase::new("t", "m", "f", false, None, None, false, 0, retry_on_error_set, &[])
}

fn failed(retry_eligible: bool, stderr: &str) -> SubprocessOutcome {
    SubprocessOutcome::Failed {
        reason: "boom".into(),
        stdout: String::new(),
        stderr: stderr.into(),
        kind: Outcome::Assertion,
        retry_eligible,
    }
}

#[test]
fn passed_is_terminal_pass() {
    assert!(matches!(
        plan(Ok(SubprocessOutcome::Passed), &case(false)),
        AttemptPlan::Passed
    ));
}

#[test]
fn skipped_carries_reason() {
    let p = plan(Ok(SubprocessOutcome::Skipped("nope".into())), &case(false));
    assert!(matches!(p, AttemptPlan::Skipped { reason } if reason == "nope"));
}

#[test]
fn failed_assertion_retryable_without_matcher() {
    let p = plan(Ok(failed(true, "")), &case(false));
    assert!(matches!(
        p,
        AttemptPlan::Failed { kind: Outcome::Assertion, retryable: true, .. }
    ));
}

#[test]
fn failed_matcher_mismatch_never_retries() {
    let p = plan(Ok(failed(false, "")), &case(true));
    assert!(matches!(p, AttemptPlan::Failed { retryable: false, .. }));
}

#[test]
fn failed_panic_retryable_without_matcher() {
    let p = plan(Ok(failed(true, "thread 'main' panicked at src/x.rs:1")), &case(false));
    assert!(matches!(
        p,
        AttemptPlan::Failed { kind: Outcome::Panic, retryable: true, .. }
    ));
}

#[test]
fn failed_panic_terminal_with_matcher() {
    let p = plan(Ok(failed(true, "thread 'main' panicked at src/x.rs:1")), &case(true));
    assert!(matches!(
        p,
        AttemptPlan::Failed { kind: Outcome::Panic, retryable: false, .. }
    ));
}

#[test]
fn timed_out_retryable_without_matcher() {
    let p = plan(Ok(SubprocessOutcome::TimedOut(Duration::from_secs(3))), &case(false));
    assert!(matches!(
        p,
        AttemptPlan::Failed { kind: Outcome::Timeout, retryable: true, .. }
    ));
}

#[test]
fn timed_out_terminal_with_matcher() {
    let p = plan(Ok(SubprocessOutcome::TimedOut(Duration::from_secs(3))), &case(true));
    assert!(matches!(
        p,
        AttemptPlan::Failed { kind: Outcome::Timeout, retryable: false, .. }
    ));
}

#[test]
fn spawn_error_retryable_without_matcher() {
    let p = plan(Err("boom".to_string()), &case(false));
    assert!(matches!(
        p,
        AttemptPlan::Failed { kind: Outcome::Crash, retryable: true, .. }
    ));
}

#[test]
fn spawn_error_terminal_with_matcher() {
    let p = plan(Err("boom".to_string()), &case(true));
    assert!(matches!(
        p,
        AttemptPlan::Failed { kind: Outcome::Crash, retryable: false, .. }
    ));
}

#[test]
fn timeout_reason_names_the_span() {
    let p = plan(Ok(SubprocessOutcome::TimedOut(Duration::from_millis(1250))), &case(false));
    assert!(
        matches!(&p, AttemptPlan::Failed { reason, .. } if reason == "timed out after 1.2s"),
        "{p:?}"
    );
}

#[test]
fn encode_skip_adds_prefix() {
    assert_eq!(encode_skip("no db"), "cargo-rigtest-skip: no db");
}

#[test]
fn encode_skip_empty_reason() {
    assert_eq!(encode_skip(""), "cargo-rigtest-skip: ");
}

#[test]
fn decode_outcome_pass() {
    assert!(matches!(
        decode_outcome(Some(0), String::new(), String::new()),
        SubprocessOutcome::Passed
    ));
}

#[test]
fn decode_outcome_skip_extracts_reason() {
    let stderr = "cargo-rigtest-skip: needs network".to_string();
    let outcome = decode_outcome(Some(SKIP_EXIT_CODE), String::new(), stderr);
    assert!(matches!(outcome, SubprocessOutcome::Skipped(r) if r == "needs network"));
}

#[test]
fn decode_outcome_skip_reason_on_second_line() {
    let stderr = "some noise\ncargo-rigtest-skip: real reason\nmore noise".to_string();
    let outcome = decode_outcome(Some(SKIP_EXIT_CODE), String::new(), stderr);
    assert!(matches!(outcome, SubprocessOutcome::Skipped(r) if r == "real reason"));
}

#[test]
fn decode_outcome_fail_preserves_output() {
    let outcome = decode_outcome(Some(1), "out".into(), "err".into());
    assert!(matches!(
        outcome,
        SubprocessOutcome::Failed { stdout, stderr, .. }
        if stdout == "out" && stderr == "err"
    ));
}

#[test]
fn decode_outcome_unknown_exit_code() {
    let outcome = decode_outcome(None, String::new(), String::new());
    assert!(matches!(
        outcome,
        SubprocessOutcome::Failed { reason, .. }
        if reason.contains("-1")
    ));
}

#[test]
fn decode_outcome_tells_whether_a_failure_may_be_retried() {
    let outcome = decode_outcome(Some(1), String::new(), String::new());
    assert!(matches!(outcome, SubprocessOutcome::Failed { retry_eligible: true, .. }));
    let outcome =
        decode_outcome(Some(FAIL_NOT_RETRYABLE_EXIT_CODE), String::new(), String::new());
    assert!(matches!(outcome, SubprocessOutcome::Failed { retry_eligible: false, .. }));
}

#[test]
fn skip_reason_is_read_back() {
    for reason in ["no db", "", "a: b  "] {
        let line = encode_skip(reason);
        assert_eq!(decode_skip_reason(&line), reason);
        assert_eq!(decode_skip_reason(&format!("noise\r\n{line}\r\nnoise")), reason);
    }
    assert_eq!(decode_skip_reason("nothing of the kind"), "");
}

#[test]
fn exit_code_reason_writes_the_code() {
    assert_eq!(exit_code_reason(Some(101)), "exited with code 101");
    assert_eq!(exit_code_reason(Some(-9)), "exited with code -9");
    assert_eq!(exit_code_reason(None), "exited with code -1");
}

#[test]
fn uncaptured_failure_hands_its_output_on() {
    let (outcome, shown) = decode_uncaptured(Some(1), "it broke".to_string());
    assert!(matches!(outcome, SubprocessOutcome::Failed { stderr, .. } if stderr.is_empty()));
    assert_eq!(shown, Some("it broke".to_string()));
    let (outcome, shown) = decode_uncaptured(Some(0), String::new());
    assert!(matches!(outcome, SubprocessOutcome::Passed));
    assert_eq!(shown, None);
}

#[test]
fn test_process_ends_with_what_the_coordinator_reads() {
    let (line, code) = end_of_test(&TestReturn::Passed);
    assert_eq!((line, code), (None, 0));
    let (line, code) = end_of_test(&TestReturn::Skipped(Skip("no db".to_string())));
    let outcome = decode_outcome(Some(code), String::new(), line.unwrap());
    assert!(matches!(outcome, SubprocessOutcome::Skipped(r) if r == "no db"));
    let (line, code) = end_of_test(&TestReturn::Failed("bad".to_string()));
    assert_eq!(line.as_deref(), Some("error: bad"));
    let outcome = decode_outcome(Some(code), String::new(), line.unwrap());
    assert!(matches!(outcome, SubprocessOutcome::Failed { retry_eligible: true, .. }));
    let (line, code) = end_of_test(&TestReturn::NotRetryEligible("bad".to_string()));
    let outcome = decode_outcome(Some(code), String::new(), line.unwrap());
    assert!(matches!(outcome, SubprocessOutcome::Failed { retry_eligible: false, .. }));
    let (_, code) = end_of_test(&TestReturn::Panicked);
    assert_eq!(code, 1);
}

#[test]
fn stage_errors_name_the_stage() {
    assert_eq!(stage_error("setup", &Stage::Done), None);
    assert_eq!(
        stage_error("setup", &Stage::Failed("no port".to_string())),
        Some("setup failed: no port".to_string())
    );
    assert_eq!(
        stage_error("teardown", &Stage::Panicked),
        Some("teardown panicked".to_string())
    );
}

#[test]
fn skip_renders_its_reason() {
    assert_eq!(Skip("no db".to_string()).render(), "no db");
    assert_eq!(no_such_test("x"), "cargo-rigtest: no test named 'x'");
}

#[test]
fn round_trips_state_through_env() {
    let json = "{\"base_url\":\"http://localhost\",\"port\":8080}".to_string();
    let handoff = StateHandoff::capture(Some(json.clone()), 0x00d1_0001);
    assert!(!handoff.json().is_empty());
    assert_eq!(state_to_load(Some(handoff.json().to_string()), true), Some(json));
}

#[test]
fn no_setup_yields_empty_json_and_unit() {
    let handoff = StateHandoff::capture(None, 0x00d1_0002);
    assert_eq!(handoff.json(), "");
    assert_eq!(state_to_load(Some("ignored".to_string()), false), None);
}

#[test]
fn var_has_rig_state_prefix_and_16_hex() {
    let handoff = StateHandoff::capture(None, 0xdead_beef);
    let var = handoff.var();
    let hex = var.strip_prefix("RIG_STATE_").expect("RIG_STATE_ prefix");
    assert_eq!(hex.len(), 16);
    assert!(hex.chars().all(|c| c.is_ascii_hexdigit()));
    assert_eq!(var, "RIG_STATE_00000000deadbeef");
}

fn retryable(outcome: SubprocessOutcome, matcher: bool) -> (Outcome, bool) {
    match plan(Ok(outcome), &case(matcher)) {
        AttemptPlan::Failed { kind, retryable, .. } => (kind, retryable),
        other => panic!("{other:?}"),
    }
}

#[test]
fn matcher_allows_no_retry_but_after_an_accepted_error() {
    let panicked = "thread 'main' panicked at src/x.rs:1";
    for (code, stderr, kind, under_matcher, without) in [
        (Some(1), "error: bad", Outcome::Assertion, true, true),
        (Some(1), panicked, Outcome::Panic, false, true),
        (Some(3), "error: bad", Outcome::Assertion, false, false),
        (Some(101), panicked, Outcome::Panic, false, true),
        (Some(7), "", Outcome::Crash, false, true),
        (None, "", Outcome::Crash, false, true),
        (None, panicked, Outcome::Panic, false, true),
    ] {
        let captured = || decode_outcome(code, String::new(), stderr.to_string());
        let uncaptured = || decode_uncaptured(code, stderr.to_string()).0;
        assert_eq!(retryable(captured(), true), (kind, under_matcher), "{code:?} {stderr}");
        assert_eq!(retryable(uncaptured(), true), (kind, under_matcher), "{code:?} {stderr}");
        assert_eq!(retryable(captured(), false), (kind, without), "{code:?} {stderr}");
        assert_eq!(retryable(uncaptured(), false), (kind, without), "{code:?} {stderr}");
    }
}
