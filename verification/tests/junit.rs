use quick_junit::{NonSuccessKind, TestCaseStatus};
use rigtest::duration::Duration;
use rigtest::junit::{
    classname_from_module, write_failure, CaseStatus, FailureKind, JunitConfig, JunitReporter,
    Timestamp,
};
use rigtest::junit_xml::{
    aggregate, aggregate_xml, render, synthetic_missing_suite, target_suites, ExpectedPart, Part,
};
use rigtest::preflight_runner::{ProbeOutcome, ProbeResult};
use rigtest::reporter::{Outcome, TestRef};

fn reporter() -> JunitReporter {
    JunitReporter::new(
        JunitConfig { suite_name: "acceptance".into(), seed: 42 },
        Timestamp::new(1_700_000_000, 0),
    )
}

fn write(r: &JunitReporter, time: Duration) -> String {
    render(&r.build_report(time, "host-1")).unwrap()
}

fn tref<'a>(name: &'a str, module: &'a str) -> TestRef<'a> {
    TestRef { name, module, file: "tests/acceptance.rs" }
}

#[test]
fn passed_case_is_recorded_as_success() {
    let mut r = reporter();
    r.test_started(tref("hello", "acceptance::smoke"));
    r.test_passed(tref("hello", "acceptance::smoke"), Duration::from_millis(50));
    let xml = write(&r, Duration::from_secs(1));
    assert!(xml.contains("name=\"hello\""), "xml was: {xml}");
    assert!(xml.contains("classname=\"acceptance.smoke\""));
    assert!(xml.contains("name=\"acceptance\""));
    assert!(!xml.contains("<failure"));
    assert!(!xml.contains("<error"));
}

#[test]
fn failed_assertion_emits_failure_element() {
    let mut r = reporter();
    let t = tref("broken", "acceptance");
    r.test_started(t);
    r.test_failed(
        t,
        Duration::from_millis(10),
        Outcome::Assertion,
        "expected 1 got 2",
        "captured stdout",
        "captured stderr",
    );
    let xml = write(&r, Duration::from_secs(1));
    assert!(xml.contains("<failure"), "xml: {xml}");
    assert!(xml.contains("expected 1 got 2"));
    assert!(xml.contains("captured stdout"));
    assert!(xml.contains("captured stderr"));
    assert!(!xml.contains("<error "));
}

#[test]
fn timeout_emits_error_element() {
    let mut r = reporter();
    let t = tref("slow", "acceptance");
    r.test_started(t);
    r.test_failed(t, Duration::from_secs(30), Outcome::Timeout, "timed out after 30.0s", "", "");
    let xml = write(&r, Duration::from_secs(31));
    assert!(xml.contains("<error"), "xml: {xml}");
    assert!(xml.contains("timed out"));
    assert!(!xml.contains("<failure "));
}

#[test]
fn crash_emits_error_element() {
    let mut r = reporter();
    let t = tref("missing", "acceptance");
    r.test_started(t);
    r.test_failed(t, Duration::from_millis(1), Outcome::Crash, "spawn failed", "", "");
    let xml = write(&r, Duration::from_secs(1));
    assert!(xml.contains("<error"));
}

#[test]
fn skipped_case_emits_skipped_element_with_reason() {
    let mut r = reporter();
    let t = tref("conditional", "acceptance");
    r.test_started(t);
    r.test_skipped(t, Duration::from_millis(1), "DB_URL not set");
    let xml = write(&r, Duration::from_secs(1));
    assert!(xml.contains("<skipped"));
    assert!(xml.contains("DB_URL not set"));
}

#[test]
fn passing_after_retry_records_flaky_rerun() {
    let mut r = reporter();
    let t = tref("flaky", "acceptance");
    r.test_started(t);
    r.test_retrying(
        t,
        1,
        2,
        Outcome::Assertion,
        "first failure",
        "out-1",
        "err-1",
        Duration::from_millis(5),
    );
    r.test_passed(t, Duration::from_millis(15));
    let xml = write(&r, Duration::from_secs(1));
    assert!(xml.contains("flakyFailure"), "xml: {xml}");
    assert!(xml.contains("first failure"));
}

#[test]
fn failing_after_retry_records_rerun_failure() {
    let mut r = reporter();
    let t = tref("always_broken", "acceptance");
    r.test_started(t);
    r.test_retrying(
        t,
        1,
        2,
        Outcome::Assertion,
        "attempt 1 failed",
        "",
        "",
        Duration::from_millis(5),
    );
    r.test_failed(t, Duration::from_millis(15), Outcome::Assertion, "final failure", "", "");
    let xml = write(&r, Duration::from_secs(1));
    assert!(xml.contains("rerunFailure"), "xml: {xml}");
    assert!(xml.contains("attempt 1 failed"));
    assert!(xml.contains("final failure"));
}

#[test]
fn suite_includes_seed_and_version_properties() {
    let mut r = reporter();
    r.test_started(tref("t", "acceptance"));
    r.test_passed(tref("t", "acceptance"), Duration::from_millis(1));
    let xml = write(&r, Duration::from_secs(1));
    assert!(xml.contains("rigtest.seed"));
    assert!(xml.contains("\"42\""));
    assert!(xml.contains("rigtest.version"));
}

#[test]
fn same_name_in_different_modules_does_not_collide() {
    let mut r = reporter();
    let a = tref("shared", "acceptance::unit");
    let b = tref("shared", "acceptance::integration");
    r.test_started(a);
    r.test_started(b);
    r.test_passed(a, Duration::from_millis(5));
    r.test_failed(b, Duration::from_millis(7), Outcome::Assertion, "boom", "", "");
    let xml = write(&r, Duration::from_secs(1));
    assert!(xml.contains("classname=\"acceptance.unit\""));
    assert!(xml.contains("classname=\"acceptance.integration\""));
    assert_eq!(xml.matches("<failure").count(), 1);
}

#[test]
fn in_flight_test_at_finish_emits_synthetic_error() {
    let mut r = reporter();
    r.test_started(tref("never_finished", "acceptance"));
    let xml = write(&r, Duration::from_secs(1));
    assert!(xml.contains("name=\"never_finished\""));
    assert!(xml.contains("<error"));
    assert!(xml.contains("did not report a terminal event"));
}

#[test]
fn rerun_kind_only_set_when_reruns_present() {
    let mut r = reporter();
    let t = tref("plain_failure", "acceptance");
    r.test_started(t);
    r.test_failed(t, Duration::from_millis(10), Outcome::Assertion, "boom", "", "");
    let xml = write(&r, Duration::from_secs(1));
    assert!(!xml.contains("rerunFailure"), "xml: {xml}");
    assert!(!xml.contains("flakyFailure"));
}

#[test]
fn suite_has_hostname_attribute() {
    let mut r = reporter();
    r.test_started(tref("t", "acceptance"));
    r.test_passed(tref("t", "acceptance"), Duration::from_millis(1));
    let xml = write(&r, Duration::from_secs(1));
    assert!(xml.contains("hostname="), "xml: {xml}");
    assert!(xml.contains("hostname=\"host-1\""), "xml: {xml}");
}

// ── more of the reporter ────────────────────────────────────────────────────

#[test]
fn class_names_have_points() {
    assert_eq!(classname_from_module("a::b::c"), "a.b.c");
    assert_eq!(classname_from_module("a:b"), "a:b");
    assert_eq!(classname_from_module("a:::b"), "a.:b");
    assert_eq!(classname_from_module("::"), ".");
    assert_eq!(classname_from_module(""), "");
}

#[test]
fn report_carries_time_and_counts() {
    let mut r = reporter();
    let a = tref("a", "m");
    let b = tref("b", "m");
    let c = tref("c", "m");
    for t in [a, b, c] {
        r.test_started(t);
    }
    r.test_passed(a, Duration::from_millis(5));
    r.test_failed(b, Duration::from_millis(5), Outcome::Panic, "boom", "", "");
    r.test_skipped(c, Duration::from_millis(5), "");
    let xml = write(&r, Duration::from_millis(1250));
    assert!(
        xml.contains("<testsuite name=\"acceptance\" tests=\"3\" skipped=\"1\" errors=\"0\" failures=\"1\""),
        "xml: {xml}"
    );
    assert!(xml.contains("timestamp=\"2023-11-14T22:13:20.000+00:00\""), "xml: {xml}");
    assert!(xml.contains("time=\"1.250\""), "xml: {xml}");
    assert!(xml.contains("type=\"panic\""), "xml: {xml}");
    assert!(xml.contains("<skipped/>"), "xml: {xml}");
}

#[test]
fn attempts_are_reported_in_order() {
    let mut r = reporter();
    let t = tref("flaky", "m");
    r.test_started(t);
    for (n, reason) in [(1, "first"), (2, "second")] {
        r.test_retrying(t, n, 3, Outcome::Timeout, reason, "", "", Duration::from_millis(5));
    }
    r.test_passed(t, Duration::from_millis(15));
    let report = r.build_report(Duration::from_secs(1), "h");
    match &report.suites[0].cases[0].status {
        CaseStatus::Success { flaky_runs } => {
            let reasons: Vec<&str> = flaky_runs.iter().map(|run| run.message.as_str()).collect();
            assert_eq!(reasons, vec!["first", "second"]);
            assert!(flaky_runs.iter().all(|run| run.kind == FailureKind::Error));
        }
        other => panic!("{other:?}"),
    }
    assert!(render(&report).unwrap().contains("flakyError"));
}

#[test]
fn attempt_of_a_test_that_does_not_run_is_not_noted() {
    let mut r = reporter();
    let t = tref("t", "m");
    r.test_retrying(t, 1, 2, Outcome::Assertion, "x", "", "", Duration::from_millis(5));
    r.test_passed(t, Duration::from_millis(1));
    let report = r.build_report(Duration::from_secs(1), "h");
    let case = &report.suites[0].cases[0];
    assert_eq!(case.classname, None);
    assert!(matches!(&case.status, CaseStatus::Success { flaky_runs } if flaky_runs.is_empty()));
}

#[test]
fn probes_get_a_suite_of_their_own() {
    let mut r = reporter();
    r.preflight_recorded(&vec![
        ProbeResult {
            name: "api(tcp)".to_string(),
            outcome: ProbeOutcome::Passed,
            elapsed: Duration::from_millis(1),
        },
        ProbeResult {
            name: "db".to_string(),
            outcome: ProbeOutcome::Failed("refused".to_string()),
            elapsed: Duration::from_millis(2),
        },
    ]);
    let report = r.build_report(Duration::from_secs(0), "h");
    assert_eq!(report.suites.len(), 2);
    assert_eq!(report.suites[0].name, "preflight");
    assert_eq!(report.suites[1].name, "acceptance");
    let xml = render(&report).unwrap();
    assert!(xml.contains("<testsuite name=\"preflight\" tests=\"2\""), "xml: {xml}");
    assert!(xml.contains("name=\"api(tcp)\" classname=\"preflight\""), "xml: {xml}");
    assert!(xml.contains("<failure message=\"refused\""), "xml: {xml}");
}

#[test]
fn control_sequences_do_not_reach_the_xml() {
    let mut r = reporter();
    let t = tref("t", "m");
    r.test_started(t);
    r.test_failed(
        t,
        Duration::from_millis(1),
        Outcome::Assertion,
        "\u{1b}[31mred\u{1b}[0m <&>",
        "",
        "",
    );
    let xml = write(&r, Duration::from_secs(1));
    assert!(!xml.contains('\u{1b}'), "xml: {xml}");
    assert!(xml.contains("message=\"red &lt;&amp;&gt;\""), "xml: {xml}");
}

#[test]
fn points_in_time_lie_in_the_calendar() {
    assert_eq!(Timestamp::new(0, 5).unwrap().parts(), (0, 5));
    assert!(Timestamp::new(0, 1_000_000_000).is_none());
    assert!(Timestamp::new(i64::MAX, 0).is_none());
    assert!(Timestamp::new(i64::MIN, 0).is_none());
    for secs in [-62_135_596_800, 253_402_300_799] {
        let r = JunitReporter::new(
            JunitConfig { suite_name: "s".into(), seed: 0 },
            Some(Timestamp::new(secs, 0).unwrap()),
        );
        assert!(write(&r, Duration::from_secs(0)).contains("timestamp="));
    }
}

#[test]
fn write_failure_names_the_file() {
    assert_eq!(
        write_failure("/x/junit.xml", "disk full"),
        "failed to write JUnit XML to /x/junit.xml: disk full"
    );
}

// ── merging ─────────────────────────────────────────────────────────────────

fn part_xml(suite_name: &str, case_name: &str) -> Part {
    Part::Text(format!(
        "<?xml version=\"1.0\" encoding=\"UTF-8\"?>
<testsuites name=\"{suite_name}\">
  <testsuite name=\"{suite_name}\" tests=\"1\">
    <testcase classname=\"acceptance\" name=\"{case_name}\" time=\"0.001\"/>
  </testsuite>
</testsuites>
"
    ))
}

fn expected(target: &str, path: &str, part: Part) -> ExpectedPart {
    ExpectedPart { target: target.to_string(), path: path.to_string(), part }
}

fn merge(parts: Vec<ExpectedPart>) -> quick_junit::Report {
    aggregate(&parts).0.expect("the counts fit")
}

#[test]
fn merges_present_parts_into_single_report() {
    let report = merge(vec![
        expected("alpha", "alpha-abc.xml", part_xml("alpha", "one")),
        expected("beta", "beta-def.xml", part_xml("beta", "two")),
    ]);
    assert_eq!(report.test_suites.len(), 2);
    let names: Vec<&str> = report.test_suites.iter().map(|s| s.name.as_str()).collect();
    assert!(names.contains(&"alpha"));
    assert!(names.contains(&"beta"));
    assert_eq!(report.tests, 2);
}

#[test]
fn two_targets_sharing_name_each_get_own_suite() {
    let report = merge(vec![
        expected("acceptance", "acceptance-abc.xml", part_xml("acceptance", "one")),
        expected("acceptance", "acceptance-def.xml", part_xml("different_name", "two")),
    ]);
    assert_eq!(report.test_suites.len(), 2);
    assert!(report.test_suites.iter().all(|s| s.name.as_str() == "acceptance"));
    let case_names: Vec<&str> = report
        .test_suites
        .iter()
        .flat_map(|s| s.test_cases.iter().map(|c| c.name.as_str()))
        .collect();
    assert!(case_names.contains(&"one"));
    assert!(case_names.contains(&"two"));
}

#[test]
fn missing_part_gets_synthetic_error_suite() {
    let report = merge(vec![
        expected("alpha", "alpha.xml", part_xml("alpha", "one")),
        expected("beta", "beta.xml", Part::Missing),
    ]);
    assert_eq!(report.test_suites.len(), 2);
    let beta = report
        .test_suites
        .iter()
        .find(|s| s.name.as_str() == "beta")
        .expect("synthetic beta suite present");
    assert_eq!(beta.test_cases.len(), 1);
    let case = &beta.test_cases[0];
    assert!(matches!(
        case.status,
        TestCaseStatus::NonSuccess { kind: NonSuccessKind::Error, .. }
    ));
    assert_eq!(case.time, Some(std::time::Duration::ZERO));
}

#[test]
fn malformed_part_falls_back_to_synthetic_suite() {
    let (report, messages) = aggregate(&vec![expected(
        "broken",
        "broken.xml",
        Part::Text("<not valid xml".to_string()),
    )]);
    let report = report.expect("the counts fit");
    assert_eq!(report.test_suites.len(), 1);
    let suite = &report.test_suites[0];
    assert_eq!(suite.name.as_str(), "broken");
    assert!(matches!(
        suite.test_cases[0].status,
        TestCaseStatus::NonSuccess { kind: NonSuccessKind::Error, .. }
    ));
    assert_eq!(messages.len(), 1);
    assert!(
        messages[0].starts_with("cargo-rigtest: failed to parse JUnit part broken.xml: "),
        "{}",
        messages[0]
    );
}

#[test]
fn inner_suite_name_is_rewritten_to_expected() {
    let report = merge(vec![expected(
        "alpha",
        "alpha-abc.xml",
        part_xml("completely_different", "one"),
    )]);
    assert_eq!(report.test_suites.len(), 1);
    assert_eq!(report.test_suites[0].name.as_str(), "alpha");
}

#[test]
fn empty_expected_list_produces_empty_report() {
    let report = merge(vec![]);
    assert!(report.test_suites.is_empty());
}

#[test]
fn synthetic_preflight_suite_keeps_its_name() {
    let xml = "<?xml version=\"1.0\" encoding=\"UTF-8\"?>
<testsuites name=\"acceptance\">
  <testsuite name=\"preflight\" tests=\"1\">
    <testcase classname=\"preflight\" name=\"api\" time=\"0.001\"/>
  </testsuite>
  <testsuite name=\"acceptance\" tests=\"1\">
    <testcase classname=\"acceptance\" name=\"some_test\" time=\"0.002\"/>
  </testsuite>
</testsuites>
";
    let report =
        merge(vec![expected("acceptance", "acceptance.xml", Part::Text(xml.to_string()))]);
    let names: Vec<&str> = report.test_suites.iter().map(|s| s.name.as_str()).collect();
    assert_eq!(names, vec!["preflight", "acceptance"]);
}

#[test]
fn unreadable_part_is_said_and_reported() {
    let (report, messages) =
        aggregate(&vec![expected("a", "/p/a.xml", Part::Unreadable("denied".to_string()))]);
    assert_eq!(
        messages,
        vec!["cargo-rigtest: failed to read JUnit part /p/a.xml: denied".to_string()]
    );
    assert_eq!(report.unwrap().errors, 1);
}

#[test]
fn part_without_suites_counts_as_missing() {
    let (report, messages) = aggregate(&vec![expected(
        "a",
        "a.xml",
        Part::Text("<testsuites name=\"a\"></testsuites>".to_string()),
    )]);
    let report = report.unwrap();
    assert!(messages.is_empty());
    assert_eq!(report.test_suites.len(), 1);
    assert_eq!(report.test_suites[0].test_cases[0].name.as_str(), "did_not_run");
    assert_eq!(report.name.as_ref().unwrap().as_str(), "cargo-rigtest");
}

#[test]
fn counts_that_do_not_fit_give_no_report() {
    let huge = || {
        Part::Text(format!(
            "<testsuites><testsuite name=\"x\" tests=\"{}\"/></testsuites>",
            usize::MAX
        ))
    };
    assert!(aggregate(&vec![expected("a", "a.xml", huge())]).0.is_some());
    let two = vec![expected("a", "a.xml", huge()), expected("b", "b.xml", Part::Missing)];
    assert!(aggregate(&two).0.is_none());
}

#[test]
fn disabled_tests_are_added_up() {
    let part = |n: usize| {
        Part::Text(format!(
            "<testsuites><testsuite name=\"x\" tests=\"3\" disabled=\"{n}\" skipped=\"1\" failures=\"1\"/></testsuites>"
        ))
    };
    let report = merge(vec![
        expected("a", "a.xml", part(1)),
        expected("b", "b.xml", part_xml("b", "one")),
        expected("c", "c.xml", part(2)),
    ]);
    assert_eq!(report.disabled, Some(3));
    assert_eq!(
        (report.tests, report.skipped, report.failures, report.errors),
        (7, 2, 2, 0)
    );
}

#[test]
fn merged_report_is_written_as_xml() {
    let report = merge(vec![
        expected("alpha", "alpha.xml", part_xml("other", "one")),
        expected("beta", "beta.xml", Part::Missing),
    ]);
    let xml = aggregate_xml(&report).unwrap();
    assert!(xml.contains("<testsuites name=\"cargo-rigtest\" tests=\"2\""), "xml: {xml}");
    assert!(xml.contains("name=\"alpha\""), "xml: {xml}");
    assert!(xml.contains("test binary did not produce results"), "xml: {xml}");
    let again = quick_junit::Report::deserialize_from_str(&xml).unwrap();
    assert_eq!(again.test_suites.len(), 2);
}

#[test]
fn what_a_program_writes_is_merged_under_its_target() {
    let mut r = reporter();
    let t = tref("t", "m");
    r.test_started(t);
    r.test_passed(t, Duration::from_millis(5));
    let report =
        merge(vec![expected("target", "p.xml", Part::Text(write(&r, Duration::from_secs(1))))]);
    assert_eq!(report.test_suites[0].name.as_str(), "target");
    assert_eq!(report.test_suites[0].test_cases[0].name.as_str(), "t");
    assert_eq!(report.test_suites[0].properties.len(), 2);
}

#[test]
fn suites_of_a_target_are_renamed_one_by_one() {
    let suites = vec![
        quick_junit::TestSuite::new("x"),
        quick_junit::TestSuite::new("preflight"),
        quick_junit::TestSuite::new("y"),
    ];
    let renamed = target_suites("t", suites);
    let names: Vec<&str> = renamed.iter().map(|s| s.name.as_str()).collect();
    assert_eq!(names, vec!["t", "preflight", "t"]);
    let none = target_suites("t", vec![]);
    assert_eq!(none.len(), 1);
    assert_eq!(none[0], synthetic_missing_suite("t"));
    assert_eq!(none[0].test_cases[0].classname.as_ref().unwrap().as_str(), "t");
}
