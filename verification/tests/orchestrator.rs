use rigtest::dispatch::{CaseState, ParallelPhase};
use rigtest::duration::Duration;
use rigtest::execution::{Execution, Step};
use rigtest::orchestrator::{
    apply_filter, apply_tag_filter, check_singleton_registrations, conclude,
    default_junit_output_path, exit_code, job_cap, junit_suite_name, plan_run, reporter_kind,
    select_cases, shuffle_cases, strip_hash_suffix, tag_set, tally, tally_all, Registrations,
    ReporterKind, RunError, Tally,
};
use rigtest::protocol::SubprocessOutcome;
use rigtest::registry::TestCase;
use rigtest::reporter::Outcome;
use rigtest::retry::{AttemptEvent, TestRun, Verdict};
use rigtest::schedule::{Phase, PlannedCase, Schedule};
use rigtest::scheduler::{mode_of, Mode, RuntimeArgs};

#[test]
fn strips_16_char_hex_suffix() {
    assert_eq!(strip_hash_suffix("acceptance-9dbf02a2431e03ff"), "acceptance");
}

#[test]
fn preserves_short_hex_tail() {
    assert_eq!(strip_hash_suffix("my-test-cafe"), "my-test-cafe");
}

#[test]
fn preserves_non_hex_tail() {
    assert_eq!(strip_hash_suffix("my-test-foobar"), "my-test-foobar");
}

#[test]
fn preserves_stem_without_dash() {
    assert_eq!(strip_hash_suffix("acceptance"), "acceptance");
}

#[test]
fn strip_hash_looks_at_the_last_dash_only() {
    assert_eq!(
        strip_hash_suffix("a-9dbf02a2431e03ff-9DBF02A2431E03FF"),
        "a-9dbf02a2431e03ff"
    );
    assert_eq!(strip_hash_suffix("-9dbf02a2431e03ff"), "");
    assert_eq!(strip_hash_suffix("a-9dbf02a2431e03fg"), "a-9dbf02a2431e03fg");
}

fn make_case(name: &'static str) -> TestCase {
    TestCase::new(name, "test_module", "test.rs", false, None, None, false, 0, false, &[])
}

fn case_with_tags(name: &'static str, tags: &'static [&'static str]) -> TestCase {
    let mut tc = make_case(name);
    tc.tags = tags;
    tc
}

fn names(cases: &[&TestCase]) -> Vec<&'static str> {
    cases.iter().map(|tc| tc.name).collect()
}

#[test]
fn orchestrator_filter_none_returns_all() {
    let cases = [make_case("foo"), make_case("bar"), make_case("baz")];
    let refs: Vec<&TestCase> = cases.iter().collect();
    assert_eq!(apply_filter(&refs, None).len(), 3);
}

#[test]
fn orchestrator_filter_matches_substring() {
    let cases = [make_case("test_login"), make_case("test_logout"), make_case("health_check")];
    let refs: Vec<&TestCase> = cases.iter().collect();
    let filtered = apply_filter(&refs, Some("test_"));
    assert_eq!(filtered.len(), 2);
    assert!(filtered.iter().all(|tc| tc.name.contains("test_")));
}

#[test]
fn orchestrator_filter_no_match_returns_empty() {
    let cases = [make_case("foo"), make_case("bar")];
    let refs: Vec<&TestCase> = cases.iter().collect();
    assert_eq!(apply_filter(&refs, Some("xyz")).len(), 0);
}

#[test]
fn scheduler_filter_none_returns_all() {
    let cases = [make_case("foo"), make_case("bar"), make_case("baz")];
    let refs: Vec<&TestCase> = cases.iter().collect();
    assert_eq!(apply_filter(&refs, None).len(), 3);
}

#[test]
fn scheduler_filter_matches_substring() {
    let cases = [make_case("test_login"), make_case("test_logout"), make_case("health_check")];
    let refs: Vec<&TestCase> = cases.iter().collect();
    let filtered = apply_filter(&refs, Some("test_"));
    assert_eq!(filtered.len(), 2);
    assert!(filtered.iter().all(|tc| tc.name.contains("test_")));
}

#[test]
fn scheduler_filter_no_match_returns_empty() {
    let cases = [make_case("foo"), make_case("bar")];
    let refs: Vec<&TestCase> = cases.iter().collect();
    assert_eq!(apply_filter(&refs, Some("xyz")).len(), 0);
}

#[test]
fn empty_filter_matches_every_name() {
    let cases = [make_case("foo"), make_case("")];
    let refs: Vec<&TestCase> = cases.iter().collect();
    assert_eq!(names(&apply_filter(&refs, Some(""))), vec!["foo", ""]);
}

#[test]
fn tag_filter_with_empty_sets_returns_all() {
    let cases = [
        case_with_tags("a", &["smoke"]),
        case_with_tags("b", &[]),
        case_with_tags("c", &["regression"]),
    ];
    let refs: Vec<&TestCase> = cases.iter().collect();
    assert_eq!(apply_tag_filter(&refs, &vec![], &vec![]).len(), 3);
}

#[test]
fn tag_filter_include_keeps_tests_matching_any_tag() {
    let cases = [
        case_with_tags("smoke_only", &["smoke"]),
        case_with_tags("regression_only", &["regression"]),
        case_with_tags("both", &["smoke", "regression"]),
        case_with_tags("untagged", &[]),
    ];
    let refs: Vec<&TestCase> = cases.iter().collect();
    let filtered = apply_tag_filter(&refs, &vec!["smoke"], &vec![]);
    assert_eq!(names(&filtered), vec!["smoke_only", "both"]);
}

#[test]
fn tag_filter_include_multiple_unions() {
    let cases = [
        case_with_tags("smoke_only", &["smoke"]),
        case_with_tags("regression_only", &["regression"]),
        case_with_tags("slow_only", &["slow"]),
    ];
    let refs: Vec<&TestCase> = cases.iter().collect();
    let filtered = apply_tag_filter(&refs, &vec!["smoke", "regression"], &vec![]);
    assert_eq!(filtered.len(), 2);
}

#[test]
fn tag_filter_exclude_drops_tests_matching_any_tag() {
    let cases = [
        case_with_tags("fast", &["smoke"]),
        case_with_tags("slow_smoke", &["smoke", "slow"]),
        case_with_tags("untagged", &[]),
    ];
    let refs: Vec<&TestCase> = cases.iter().collect();
    let filtered = apply_tag_filter(&refs, &vec![], &vec!["slow"]);
    assert_eq!(names(&filtered), vec!["fast", "untagged"]);
}

#[test]
fn tag_filter_include_and_exclude_compose_with_and() {
    let cases = [
        case_with_tags("smoke_fast", &["smoke"]),
        case_with_tags("smoke_slow", &["smoke", "slow"]),
        case_with_tags("regression_fast", &["regression"]),
    ];
    let refs: Vec<&TestCase> = cases.iter().collect();
    let filtered = apply_tag_filter(&refs, &vec!["smoke"], &vec!["slow"]);
    assert_eq!(names(&filtered), vec!["smoke_fast"]);
}

#[test]
fn tag_set_dedupes_and_drops_empty() {
    let values = vec![
        "smoke".to_string(),
        String::new(),
        "smoke".to_string(),
        "regression".to_string(),
    ];
    let set = tag_set(&values);
    assert_eq!(set.len(), 2);
    assert!(set.contains(&"smoke"));
    assert!(set.contains(&"regression"));
}

#[test]
fn filters_can_be_applied_in_either_order() {
    let cases = [
        case_with_tags("login_fast", &["smoke"]),
        case_with_tags("login_slow", &["smoke", "slow"]),
        case_with_tags("logout", &["smoke"]),
    ];
    let refs: Vec<&TestCase> = cases.iter().collect();
    let a = apply_tag_filter(&apply_filter(&refs, Some("login")), &vec!["smoke"], &vec!["slow"]);
    let b = apply_filter(&apply_tag_filter(&refs, &vec!["smoke"], &vec!["slow"]), Some("login"));
    assert_eq!(names(&a), vec!["login_fast"]);
    assert_eq!(names(&a), names(&b));
}

// ── order and plan ──────────────────────────────────────────────────────────

fn ten_cases() -> Vec<TestCase> {
    ["t0", "t1", "t2", "t3", "t4", "t5", "t6", "t7", "t8", "t9"].map(make_case).into()
}

#[test]
fn same_seed_gives_the_same_order() {
    let cases = ten_cases();
    let refs: Vec<&TestCase> = cases.iter().collect();
    let a = names(&shuffle_cases(&refs, 42));
    let b = names(&shuffle_cases(&refs, 42));
    assert_eq!(a, b);
}

#[test]
fn shuffle_keeps_every_case_and_moves_some() {
    let cases = ten_cases();
    let refs: Vec<&TestCase> = cases.iter().collect();
    let orders: Vec<Vec<&str>> = (0..8).map(|seed| names(&shuffle_cases(&refs, seed))).collect();
    for order in &orders {
        let mut sorted = order.clone();
        sorted.sort();
        assert_eq!(sorted, names(&refs));
    }
    assert!(orders.iter().any(|order| *order != names(&refs)));
    assert!(orders.iter().any(|order| *order != orders[0]));
}

#[test]
fn job_cap_follows_the_arguments() {
    assert_eq!(job_cap(false, None, 8), 8);
    assert_eq!(job_cap(false, Some(3), 8), 3);
    assert_eq!(job_cap(true, Some(3), 8), 1);
    assert_eq!(job_cap(true, None, 8), 1);
}

#[test]
fn select_cases_applies_filter_and_tags() {
    let cases = [
        case_with_tags("login_fast", &["smoke"]),
        case_with_tags("login_slow", &["smoke", "slow"]),
        case_with_tags("login_other", &[]),
        case_with_tags("logout", &["smoke"]),
    ];
    let refs: Vec<&TestCase> = cases.iter().collect();
    let mut args = RuntimeArgs::none();
    args.filter = Some("login".to_string());
    args.tag = vec![String::new(), "smoke".to_string()];
    args.not_tag = vec!["slow".to_string()];
    assert_eq!(names(&select_cases(&args, &refs, 7)), vec!["login_fast"]);
    args.tag = vec![String::new()];
    let mut got = names(&select_cases(&args, &refs, 7));
    got.sort();
    assert_eq!(got, vec!["login_fast", "login_other"]);
}

#[test]
fn plan_run_plans_the_selected_cases() {
    let mut alone = make_case("alone");
    alone.serial = true;
    let cases = [make_case("together"), alone, make_case("other")];
    let refs: Vec<&TestCase> = cases.iter().collect();
    let mut args = RuntimeArgs::none();
    args.filter = Some("o".to_string());
    args.retries = Some(2);
    let plan = plan_run(&args, &refs, 1, 6, Some(Duration::from_secs(9)));
    assert_eq!(plan.phases.len(), 2);
    match &plan.phases[0] {
        Phase::Parallel { cases, cap, groups } => {
            assert_eq!(*cap, 6);
            assert!(groups.is_empty());
            let mut got: Vec<&str> = cases.iter().map(|pc| pc.case.name).collect();
            got.sort();
            assert_eq!(got, vec!["other", "together"]);
            assert!(cases.iter().all(|pc| pc.max_attempts == 3));
            assert!(cases.iter().all(|pc| pc.timeout == Some(Duration::from_secs(9))));
        }
        other => panic!("{other:?}"),
    }
    match &plan.phases[1] {
        Phase::Exclusive { cases } => {
            assert_eq!(cases.len(), 1);
            assert_eq!(cases[0].case.name, "alone");
        }
        other => panic!("{other:?}"),
    }
}

// ── attempts ────────────────────────────────────────────────────────────────

fn case_with_retries(name: &'static str, retries: u32) -> TestCase {
    let mut tc = make_case(name);
    tc.retries = retries;
    tc
}

fn case_with_retry_on_error(name: &'static str, retries: u32) -> TestCase {
    let mut tc = case_with_retries(name, retries);
    tc.retry_on_error_set = true;
    tc
}

fn mk_failed(reason: &str, retry_eligible: bool) -> SubprocessOutcome {
    SubprocessOutcome::Failed {
        reason: reason.into(),
        stdout: String::new(),
        stderr: String::new(),
        kind: Outcome::Assertion,
        retry_eligible,
    }
}

/// Runs a case against a queue of outcomes, and hands out its verdict, the
/// number of attempts and what was reported of them.
fn run_test(
    tc: &TestCase,
    retries_override: Option<usize>,
    outcomes: Vec<SubprocessOutcome>,
) -> (Verdict, u32, Vec<AttemptEvent>) {
    let pc = PlannedCase::resolve(tc, retries_override, None);
    let mut run = TestRun::new(&pc);
    let mut calls = 0;
    let mut events = vec![];
    for outcome in outcomes {
        calls += 1;
        let (event, verdict) = run.on_result(Ok(outcome), tc);
        events.push(event);
        if let Some(v) = verdict {
            return (v, calls, events);
        }
    }
    panic!("the queue is empty and the test has no verdict")
}

#[test]
fn retry_loop_succeeds_after_one_failure() {
    let tc = case_with_retries("flaky", 1);
    let (outcome, calls, _) = run_test(
        &tc,
        None,
        vec![mk_failed("transient", true), SubprocessOutcome::Passed],
    );
    assert!(matches!(outcome, Verdict::Passed));
    assert_eq!(calls, 2);
}

#[test]
fn skip_does_not_retry() {
    let tc = case_with_retries("skipper", 3);
    let (outcome, calls, _) =
        run_test(&tc, None, vec![SubprocessOutcome::Skipped("nope".into())]);
    assert!(matches!(outcome, Verdict::Skipped));
    assert_eq!(calls, 1);
}

#[test]
fn retry_exhausts_and_reports_failure() {
    let tc = case_with_retries("always_fails", 2);
    let (outcome, calls, _) = run_test(
        &tc,
        None,
        vec![mk_failed("boom", true), mk_failed("boom", true), mk_failed("boom", true)],
    );
    assert!(matches!(outcome, Verdict::Failed));
    assert_eq!(calls, 3);
}

#[test]
fn non_retry_eligible_failure_fails_immediately() {
    let tc = case_with_retry_on_error("strict_matcher", 5);
    let (outcome, calls, _) = run_test(&tc, None, vec![mk_failed("assertion failure", false)]);
    assert!(matches!(outcome, Verdict::Failed));
    assert_eq!(calls, 1, "non-matching error must not consume a retry attempt");
}

#[test]
fn retry_eligible_failure_with_matcher_retries() {
    let tc = case_with_retry_on_error("flaky_with_matcher", 2);
    let (outcome, calls, _) = run_test(
        &tc,
        None,
        vec![mk_failed("transient", true), SubprocessOutcome::Passed],
    );
    assert!(matches!(outcome, Verdict::Passed));
    assert_eq!(calls, 2);
}

#[test]
fn timeout_with_matcher_does_not_retry() {
    let tc = case_with_retry_on_error("times_out_matcher", 3);
    let (outcome, calls, _) =
        run_test(&tc, None, vec![SubprocessOutcome::TimedOut(Duration::from_secs(1))]);
    assert!(matches!(outcome, Verdict::Failed));
    assert_eq!(calls, 1, "timeout with retry_on_error set must not consume a retry");
}

#[test]
fn timeout_without_matcher_retries() {
    let tc = case_with_retries("times_out_then_passes", 2);
    let (outcome, calls, _) = run_test(
        &tc,
        None,
        vec![
            SubprocessOutcome::TimedOut(Duration::from_secs(1)),
            SubprocessOutcome::Passed,
        ],
    );
    assert!(matches!(outcome, Verdict::Passed));
    assert_eq!(calls, 2);
}

#[test]
fn cli_override_replaces_declared_retry_count() {
    let tc = case_with_retries("override_total", 0);
    let (outcome, calls, _) = run_test(
        &tc,
        Some(5),
        vec![
            mk_failed("transient", true),
            mk_failed("transient", true),
            SubprocessOutcome::Passed,
        ],
    );
    assert!(matches!(outcome, Verdict::Passed));
    assert_eq!(calls, 3);
}

#[test]
fn cli_override_zero_disables_declared_retries() {
    let tc = case_with_retries("strict_run", 3);
    let (outcome, calls, _) = run_test(&tc, Some(0), vec![mk_failed("boom", true)]);
    assert!(matches!(outcome, Verdict::Failed));
    assert_eq!(calls, 1);
}

#[test]
fn cli_override_leaves_matcher_in_force() {
    let tc = case_with_retry_on_error("override_keeps_matcher", 0);
    let (outcome, calls, _) = run_test(&tc, Some(10), vec![mk_failed("not matching", false)]);
    assert!(matches!(outcome, Verdict::Failed));
    assert_eq!(calls, 1);
}

#[test]
fn retry_emits_retrying_event_before_passed() {
    let tc = case_with_retries("flaky", 1);
    let (outcome, _, events) = run_test(
        &tc,
        None,
        vec![mk_failed("first failure", true), SubprocessOutcome::Passed],
    );
    assert!(matches!(outcome, Verdict::Passed));
    assert!(
        matches!(events[0], AttemptEvent::Retrying { attempt: 1, max_attempts: 2, .. }),
        "got {:?}",
        events[0]
    );
    assert!(matches!(events[1], AttemptEvent::Passed));
    assert_eq!(events.len(), 2);
}

// ── dispatch ────────────────────────────────────────────────────────────────

fn group_case(name: &'static str, group: &'static str) -> TestCase {
    let mut tc = make_case(name);
    tc.serial_group = Some(group);
    tc
}

fn phase_of(cases: &[TestCase], cap: usize) -> (ParallelPhase, usize) {
    let schedule = Schedule::plan(cases.iter().collect(), cap, None, None);
    let exclusive = match &schedule.phases[1] {
        Phase::Exclusive { cases } => cases.len(),
        other => panic!("{other:?}"),
    };
    match &schedule.phases[0] {
        Phase::Parallel { cases, cap, groups } => {
            (ParallelPhase::new(cases, *cap, groups), exclusive)
        }
        other => panic!("{other:?}"),
    }
}

fn running(phase: &ParallelPhase) -> usize {
    phase.states.iter().filter(|s| **s == CaseState::Running).count()
}

#[test]
fn dispatch_counts_pass_skip_fail_correctly() {
    let outcomes = vec![
        SubprocessOutcome::Passed,
        SubprocessOutcome::Skipped("nope".into()),
        mk_failed("boom", true),
        SubprocessOutcome::Passed,
        SubprocessOutcome::Passed,
    ];
    let mut t = Tally { passed: 0, skipped: 0 };
    for (name, outcome) in ["a", "b", "c", "d", "e"].into_iter().zip(outcomes) {
        let (verdict, _, _) = run_test(&make_case(name), None, vec![outcome]);
        tally(&mut t, verdict);
    }
    assert_eq!(t.passed, 3);
    assert_eq!(t.skipped, 1);
}

#[test]
fn dispatch_respects_semaphore_cap() {
    let cases = ten_cases();
    let (mut phase, _) = phase_of(&cases, 2);
    let mut max = 0;
    let mut live: Vec<usize> = vec![];
    let mut done = 0;
    while done < 10 {
        while let Some(i) = phase.poll() {
            live.push(i);
            max = max.max(running(&phase));
        }
        let i = live.remove(0);
        phase.finish(i);
        done += 1;
    }
    assert!(max <= 2, "semaphore cap of 2 violated: max concurrent was {max}");
    assert!(max >= 1, "expected some concurrency to be observed, got {max}");
    assert!(phase.states.iter().all(|s| *s == CaseState::Finished));
}

#[test]
fn dispatch_serial_group_is_mutually_exclusive() {
    let cases = [group_case("db1", "db"), group_case("db2", "db")];
    let (mut phase, _) = phase_of(&cases, 4);
    assert_eq!(phase.poll(), Some(0));
    assert_eq!(phase.poll(), None);
    assert_eq!(running(&phase), 1, "same-group cases must never overlap");
    phase.finish(0);
    assert_eq!(phase.poll(), Some(1));
    assert_eq!(running(&phase), 1, "same-group cases must never overlap");
}

#[test]
fn dispatch_different_groups_run_concurrently() {
    let cases = [group_case("a1", "a"), group_case("b1", "b")];
    let (mut phase, _) = phase_of(&cases, 4);
    assert_eq!(phase.poll(), Some(0));
    assert_eq!(phase.poll(), Some(1));
    let overall = running(&phase);
    assert!(overall >= 2, "different groups should run concurrently, got max {overall}");
}

#[test]
fn waiting_case_counts_against_the_cap() {
    // The second case waits for the group of the first, and takes the last
    // place: the third, which has no group, is not admitted.
    let cases = [group_case("db1", "db"), group_case("db2", "db"), make_case("free")];
    let (mut phase, _) = phase_of(&cases, 2);
    assert_eq!(phase.poll(), Some(0));
    assert_eq!(phase.poll(), None);
    assert_eq!(
        phase.states,
        vec![CaseState::Running, CaseState::Waiting, CaseState::Queued]
    );
    phase.finish(0);
    assert_eq!(phase.poll(), Some(1));
    assert_eq!(phase.poll(), Some(2));
}

#[test]
fn exclusive_cases_run_one_at_a_time_after_the_others() {
    let mut x = make_case("x");
    x.serial = true;
    let mut y = make_case("y");
    y.serial = true;
    let cases = [x, make_case("a"), y, make_case("b")];
    let (phase, exclusive) = phase_of(&cases, 4);
    let mut run = Execution::new(phase, exclusive);
    assert_eq!(run.poll(), Step::Parallel(0));
    assert_eq!(run.poll(), Step::Parallel(1));
    assert_eq!(run.poll(), Step::Wait);
    run.finish_parallel(1, Verdict::Skipped);
    assert_eq!(run.poll(), Step::Wait);
    run.finish_parallel(0, Verdict::Passed);
    assert_eq!(run.poll(), Step::Exclusive(0));
    assert_eq!(run.poll(), Step::Wait);
    run.finish_exclusive(Verdict::Failed);
    assert_eq!(run.poll(), Step::Exclusive(1));
    run.finish_exclusive(Verdict::Passed);
    assert_eq!(run.poll(), Step::Done);
    assert_eq!(run.poll(), Step::Done);
    assert_eq!(run.tally(), Tally { passed: 2, skipped: 1 });
    assert_eq!(run.verdicts.len(), 4);
}

#[test]
fn every_case_of_a_run_starts_once_and_counts_once() {
    let group = |name: &'static str, group: Option<&'static str>| {
        let mut tc = make_case(name);
        tc.serial_group = group;
        tc
    };
    let mut alone = make_case("alone");
    alone.serial = true;
    let cases = [
        group("a", Some("db")),
        group("b", None),
        alone,
        group("c", Some("db")),
        group("d", Some("net")),
        group("e", None),
    ];
    for cap in 1..=6 {
        let (phase, exclusive) = phase_of(&cases, cap);
        let mut run = Execution::new(phase, exclusive);
        let mut started: Vec<Step> = Vec::new();
        let mut in_flight: Vec<Step> = Vec::new();
        loop {
            match run.poll() {
                Step::Done => break,
                Step::Wait => match in_flight.remove(0) {
                    Step::Parallel(i) => run.finish_parallel(i, Verdict::Passed),
                    _ => run.finish_exclusive(Verdict::Skipped),
                },
                step => {
                    assert!(!started.contains(&step), "{step:?}");
                    started.push(step);
                    in_flight.push(step);
                    assert!(in_flight.len() <= cap);
                }
            }
        }
        assert_eq!(started.len(), 6);
        assert_eq!(run.tally(), Tally { passed: 5, skipped: 1 });
    }
}

#[test]
fn listed_groups_need_no_order() {
    let mut a = make_case("a");
    a.serial_group = Some("db");
    let mut b = make_case("b");
    b.serial_group = Some("db");
    let cases = [a, b];
    let schedule = Schedule::plan(cases.iter().collect(), 4, None, None);
    let planned = match &schedule.phases[0] {
        Phase::Parallel { cases, .. } => cases,
        other => panic!("{other:?}"),
    };
    let mut phase = ParallelPhase::new(planned, 4, &vec!["net", "db", "api", "db"]);
    assert_eq!(phase.poll(), Some(0));
    assert_eq!(phase.poll(), None);
    phase.finish(0);
    assert_eq!(phase.poll(), Some(1));
}

#[test]
fn empty_run_is_done_at_once() {
    let (phase, exclusive) = phase_of(&[], 4);
    assert_eq!(Execution::new(phase, exclusive).poll(), Step::Done);
}

// ── what a run comes to ─────────────────────────────────────────────────────

#[test]
fn tally_all_counts_every_verdict() {
    let verdicts = vec![
        Verdict::Passed,
        Verdict::Failed,
        Verdict::Skipped,
        Verdict::Passed,
        Verdict::Failed,
    ];
    assert_eq!(tally_all(&verdicts), Tally { passed: 2, skipped: 1 });
    assert_eq!(tally_all(&vec![]), Tally { passed: 0, skipped: 0 });
}

#[test]
fn conclude_reports_failures_before_the_reporters() {
    assert!(conclude(2, 1, 3, Ok(())).is_ok());
    match conclude(1, 1, 3, Err("disk full".to_string())) {
        Err(e) => assert_eq!(e, "Test suite failed: 1/3 passed"),
        Ok(()) => panic!("a failed test must fail the run"),
    }
    match conclude(2, 1, 3, Err("disk full".to_string())) {
        Err(e) => assert_eq!(e, "disk full"),
        Ok(()) => panic!("a reporter's error must fail the run"),
    }
}

#[test]
fn exit_codes_tell_an_abort_from_a_failure() {
    assert_eq!(exit_code(&Ok(())), 0);
    assert_eq!(exit_code(&Err(RunError::Preflight("no db".to_string()))), 2);
    assert_eq!(exit_code(&Err(RunError::Other("failed".to_string()))), 1);
}

#[test]
fn reporter_kind_knows_junit_only() {
    assert!(matches!(reporter_kind(None), Ok(None)));
    assert!(matches!(reporter_kind(Some("junit")), Ok(Some(ReporterKind::Junit))));
    match reporter_kind(Some("tap")) {
        Err(e) => assert_eq!(e, "cargo-rigtest: unknown --reporter 'tap' (expected 'junit')"),
        Ok(_) => panic!("an unknown reporter must be refused"),
    }
}

#[test]
fn junit_suite_name_prefers_the_given_name() {
    assert_eq!(junit_suite_name(Some("acceptance-9dbf02a2431e03ff"), None), "acceptance");
    assert_eq!(junit_suite_name(Some("acceptance-9dbf02a2431e03ff"), Some("given")), "given");
}

fn strings(parts: &[&str]) -> Vec<String> {
    parts.iter().map(|p| p.to_string()).collect()
}

#[test]
fn default_junit_path_stands_in_the_target_directory() {
    assert_eq!(
        default_junit_output_path(&strings(&["/", "w", "target", "debug", "deps", "t-1"])),
        strings(&["/", "w", "target", "rigtest", "junit.xml"])
    );
}

fn no_registrations() -> Registrations {
    Registrations {
        preflight: 0,
        global_setup: 0,
        global_teardown: 0,
        default_timeout: 0,
        http_client: 0,
        ssh_client: 0,
    }
}

#[test]
fn second_registration_is_an_error() {
    assert_eq!(check_singleton_registrations(&no_registrations()), None);
    let mut one = no_registrations();
    one.preflight = 1;
    one.ssh_client = 1;
    assert_eq!(check_singleton_registrations(&one), None);
    let mut two = no_registrations();
    two.global_setup = 2;
    two.ssh_client = 3;
    assert_eq!(
        check_singleton_registrations(&two),
        Some(
            "cargo-rigtest: at most one #[global_setup] function may be defined, found 2"
                .to_string()
        )
    );
}

#[test]
fn mode_follows_the_arguments() {
    assert!(matches!(mode_of(&RuntimeArgs::none()), Mode::Suite));
    let mut args = RuntimeArgs::none();
    args.run_single = Some("login".to_string());
    args.state_env_var = Some("RIG_STATE_0".to_string());
    match mode_of(&args) {
        Mode::Single { test, state_var } => {
            assert_eq!(test, "login");
            assert_eq!(state_var, Some("RIG_STATE_0".to_string()));
        }
        other => panic!("{other:?}"),
    }
    args.list = true;
    assert!(matches!(mode_of(&args), Mode::Exit));
    let mut probe = RuntimeArgs::none();
    probe.rig_probe = true;
    assert!(matches!(mode_of(&probe), Mode::Exit));
}
