use rigtest::duration::Duration;
use rigtest::reporter::{
    first_error, passed_label, render_captured, render_pass_line, Reporter, TestRef,
};

fn tref<'a>(name: &'a str, module: &'a str) -> TestRef<'a> {
    TestRef { name, module, file: "tests/acceptance.rs" }
}

fn strip_ansi(s: &str) -> String {
    console::strip_ansi_codes(s).into_owned()
}

#[test]
fn pass_line_renders_pass_when_no_retries() {
    let line = strip_ansi(&render_pass_line("homepage", Duration::from_millis(142), 0, true));
    assert_eq!(line, "PASS [0.142s] homepage");
}

#[test]
fn pass_line_renders_flaky_when_any_retries() {
    let line = strip_ansi(&render_pass_line("homepage", Duration::from_millis(142), 1, true));
    assert_eq!(line, "FLAKY [0.142s] homepage");
}

#[test]
fn passed_label_omits_parenthetical_when_no_flaky() {
    assert_eq!(passed_label(12, 0), "12 passed");
}

#[test]
fn passed_label_adds_parenthetical_when_flaky_present() {
    assert_eq!(passed_label(12, 2), "12 passed (2 flaky)");
}

#[test]
fn retry_then_pass_marks_test_flaky() {
    let mut r = Reporter::new(false);
    let t = tref("homepage", "acceptance");
    r.test_started(t);
    r.test_retrying(t, 1, 2, "transient");
    assert_eq!(r.pending_retries(t), Some(1));
    r.test_passed(t, Duration::from_millis(20));
    assert_eq!(r.flaky_passed(), 1);
    assert!(r.pending_retries(t).is_none());
}

#[test]
fn pass_with_no_retries_is_not_flaky() {
    let mut r = Reporter::new(false);
    let t = tref("homepage", "acceptance");
    r.test_started(t);
    r.test_passed(t, Duration::from_millis(20));
    assert_eq!(r.flaky_passed(), 0);
}

#[test]
fn fail_clears_pending_retry_count() {
    let mut r = Reporter::new(false);
    let t = tref("homepage", "acceptance");
    r.test_started(t);
    r.test_retrying(t, 1, 2, "still broken");
    r.test_failed(t, Duration::from_millis(20), "final fail", "", "");
    assert_eq!(r.flaky_passed(), 0);
    assert!(r.pending_retries(t).is_none());
}

#[test]
fn retries_are_kept_per_module() {
    let mut r = Reporter::new(false);
    let a = tref("shared", "unit");
    let b = tref("shared", "integration");
    r.test_retrying(a, 1, 3, "x");
    r.test_retrying(a, 2, 3, "x");
    assert_eq!(r.pending_retries(a), Some(2));
    assert_eq!(r.pending_retries(b), None);
    assert_eq!(strip_ansi(&r.test_passed(b, Duration::from_secs(1))), "PASS [1.000s] shared");
    assert_eq!(strip_ansi(&r.test_passed(a, Duration::from_secs(1))), "FLAKY [1.000s] shared");
}

#[test]
fn styles_add_control_sequences_only_where_colors_are_on() {
    let plain = render_pass_line("x", Duration::from_secs(1), 0, false);
    let styled = render_pass_line("x", Duration::from_secs(1), 0, true);
    assert_eq!(plain, "PASS [1.000s] x");
    assert_ne!(styled, plain);
    assert_eq!(strip_ansi(&styled), plain);
}

#[test]
fn lines_of_a_run() {
    let mut r = Reporter::new(false);
    let t = tref("homepage", "acceptance");
    assert_eq!(r.test_started(t), "RUNNING homepage");
    assert_eq!(
        r.test_skipped(t, Duration::from_millis(3), "no db"),
        "SKIP [0.003s] homepage: no db"
    );
    assert_eq!(r.test_skipped(t, Duration::from_millis(3), ""), "SKIP [0.003s] homepage");
    let (line, out, err) =
        r.test_failed(t, Duration::from_millis(3), "boom", "  hello\nworld \n", "");
    assert_eq!(line, "FAIL [0.003s] homepage: boom");
    assert!(err.is_none());
    let out = out.expect("captured output is shown");
    assert!(out.contains("stdout") && out.contains("hello") && out.contains("world"), "{out}");
}

#[test]
fn blank_output_is_not_shown() {
    assert_eq!(render_captured("stdout", " \n\t", false), None);
    assert!(render_captured("stdout", "x", false).is_some());
}

#[test]
fn summary_counts_what_failed() {
    let r = Reporter::new(false);
    let (rule, summary) = r.finish(3, 1, 5, Duration::from_millis(1500));
    assert_eq!(rule, "─".repeat(60));
    assert!(summary.contains("3 passed"), "{summary}");
    assert!(summary.contains("1 skipped"), "{summary}");
    assert!(summary.contains("1 failed"), "{summary}");
    assert!(r.print_phase("global setup").contains("global setup"));
}

#[test]
fn first_error_of_several_reporters_counts() {
    assert_eq!(first_error(vec![Ok(()), Ok(())]), Ok(()));
    assert_eq!(
        first_error(vec![Ok(()), Err("a".to_string()), Err("b".to_string())]),
        Err("a".to_string())
    );
}

#[test]
fn lines_and_summary_follow_what_was_told() {
    let mut r = Reporter::new(false);
    let a = tref("a", "m");
    let b = tref("b", "m");
    let d = Duration::from_millis(20);
    r.test_retrying(a, 1, 3, "x");
    r.test_retrying(b, 1, 3, "x");
    r.test_failed(b, d, "x", "", "");
    assert_eq!(r.test_passed(a, d), "FLAKY [0.020s] a");
    assert_eq!(r.test_passed(a, d), "PASS [0.020s] a");
    assert_eq!(r.test_passed(b, d), "PASS [0.020s] b");
    r.test_retrying(b, 1, 3, "x");
    r.test_retrying(b, 2, 3, "x");
    assert_eq!(r.test_passed(b, d), "FLAKY [0.020s] b");
    let (_, summary) = r.finish(4, 0, 5, d);
    assert!(summary.contains("4 passed (2 flaky), 1 failed"), "{summary}");
}
