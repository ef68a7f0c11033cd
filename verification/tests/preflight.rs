use rigtest::duration::Duration;
use rigtest::preflight::{
    default_probe_timeout, first_duplicate_name, resolve_names, ExpectStatus, Preflight, ProbeKind,
};
use rigtest::preflight_runner::{
    active_profile_name, after_preflight, count_failed, custom_outcome, deadline, dns_outcome,
    dns_query, finish_preflight, format_abort_message, http_outcome, records_preflight,
    render_closing_lines, render_probe_line, render_running, run_env, ssh_outcome, start_preflight,
    tcp_outcome, timeout_outcome, ControlFlow, EnvValue, HttpReply, PreflightReport, PreflightStep,
    ProbeOutcome, ProbeResult, SshReply,
};

#[test]
fn empty_builder() {
    let p = Preflight::new();
    assert!(p.probes().is_empty());
}

#[test]
fn tcp_probe_records_default_timeout() {
    let p = Preflight::new().tcp("api", "127.0.0.1:1");
    let probes = p.probes();
    assert_eq!(probes.len(), 1);
    assert_eq!(probes[0].name, "api");
    assert!(matches!(&probes[0].kind, ProbeKind::Tcp { target } if target == "127.0.0.1:1"));
    assert_eq!(probes[0].timeout, Some(default_probe_timeout()));
}

#[test]
fn timeout_overrides_last_probe() {
    let p = Preflight::new().tcp("api", "127.0.0.1:1").timeout(Duration::from_millis(250));
    assert_eq!(p.probes()[0].timeout, Some(Duration::from_millis(250)));
}

#[test]
fn env_probe_defaults_to_non_empty_check() {
    let p = Preflight::new().env("home", "HOME");
    let probes = p.probes();
    assert_eq!(probes.len(), 1);
    match &probes[0].kind {
        ProbeKind::Env { var, expected } => {
            assert_eq!(var, "HOME");
            assert!(expected.is_none());
        }
        _ => panic!("expected env probe"),
    }
}

#[test]
fn equals_pins_expected_value() {
    let p = Preflight::new().env("mode", "MODE").equals("prod");
    match &p.probes()[0].kind {
        ProbeKind::Env { expected, .. } => assert_eq!(expected.as_deref(), Some("prod")),
        _ => panic!("expected env probe"),
    }
}

#[test]
fn equals_on_tcp_probe_is_no_op() {
    let p = Preflight::new().tcp("api", "127.0.0.1:1").equals("ignored");
    assert!(matches!(p.probes()[0].kind, ProbeKind::Tcp { .. }));
}

#[test]
fn chain_records_probes_in_declaration_order() {
    let p = Preflight::new().tcp("a", "1.2.3.4:1").env("b", "X").tcp("c", "1.2.3.4:2");
    let names: Vec<&str> = p.probes().iter().map(|p| p.name.as_str()).collect();
    assert_eq!(names, vec!["a", "b", "c"]);
}

#[test]
fn timeout_after_chain_only_affects_just_added_probe() {
    let p = Preflight::new()
        .tcp("a", "1.2.3.4:1")
        .timeout(Duration::from_millis(100))
        .tcp("b", "1.2.3.4:2");
    assert_eq!(p.probes()[0].timeout, Some(Duration::from_millis(100)));
    assert_eq!(p.probes()[1].timeout, Some(default_probe_timeout()));
}

#[test]
fn duplicate_detection_finds_first_collision() {
    let p = Preflight::new().tcp("api", "1.2.3.4:1").env("api", "X");
    assert_eq!(first_duplicate_name(&p.into_probes()), Some("api"));
}

#[test]
fn duplicate_detection_returns_none_for_unique() {
    let p = Preflight::new().tcp("a", "1.2.3.4:1").env("b", "X");
    assert!(first_duplicate_name(&p.into_probes()).is_none());
}

#[test]
fn default_probe_timeout_is_thirty_seconds() {
    assert_eq!(default_probe_timeout(), Duration::from_secs(30));
}

fn build_suite_preflight() -> Preflight {
    Preflight::new()
        .tcp("local_loopback_closed_port", "127.0.0.1:1")
        .timeout(Duration::from_millis(50))
        .env("path_is_set", "PATH")
}

#[test]
fn preflight_macro_invokes_user_builder() {
    let p = build_suite_preflight();
    let probes = p.probes();
    assert_eq!(probes.len(), 2, "builder declared two probes");

    assert_eq!(probes[0].name, "local_loopback_closed_port");
    assert!(matches!(
        &probes[0].kind,
        ProbeKind::Tcp { target } if target == "127.0.0.1:1"
    ));
    assert_eq!(probes[0].timeout, Some(Duration::from_millis(50)));

    assert_eq!(probes[1].name, "path_is_set");
    assert!(matches!(
        &probes[1].kind,
        ProbeKind::Env { var, expected: None } if var == "PATH"
    ));
}

#[test]
fn preflight_macro_records_declaration_order() {
    let p = build_suite_preflight();
    let names: Vec<&str> = p.probes().iter().map(|p| p.name.as_ref()).collect();
    assert_eq!(names, vec!["local_loopback_closed_port", "path_is_set"]);
}

fn profile_aware_builder(env: &str) -> Preflight {
    let host: &'static str = match env {
        "prod" => "prod.example.com",
        "staging" => "staging.example.com",
        _ => "localhost",
    };
    Preflight::new().dns("api_dns", host)
}

#[test]
fn one_arg_builder_branches_on_profile() {
    let p = profile_aware_builder("prod");
    let probes = p.probes();
    assert!(matches!(
        &probes[0].kind,
        ProbeKind::Dns { host } if host == "prod.example.com"
    ));
    let p = profile_aware_builder("staging");
    assert!(matches!(
        &p.probes()[0].kind,
        ProbeKind::Dns { host } if host == "staging.example.com"
    ));
    let p = profile_aware_builder("");
    assert!(matches!(
        &p.probes()[0].kind,
        ProbeKind::Dns { host } if host == "localhost"
    ));
}

// ── further builders ────────────────────────────────────────────────────────

#[test]
fn http_probe_expects_success_unless_told_otherwise() {
    let p = Preflight::new().http("api", "http://x/").http("b", "http://y/");
    match &p.probes()[0].kind {
        ProbeKind::Http { url, expect } => {
            assert_eq!(url, "http://x/");
            assert_eq!(*expect, ExpectStatus::Range { first: 200, last: 299 });
        }
        _ => panic!("expected http probe"),
    }
    let p = p.expect_status(ExpectStatus::Exact(204));
    assert!(matches!(
        p.probes()[0].kind,
        ProbeKind::Http { expect: ExpectStatus::Range { .. }, .. }
    ));
    assert!(matches!(
        p.probes()[1].kind,
        ProbeKind::Http { expect: ExpectStatus::Exact(204), .. }
    ));
}

#[test]
fn ssh_probe_runs_true_unless_told_otherwise() {
    let p = Preflight::new().ssh("host", "deploy@host");
    assert!(matches!(
        &p.probes()[0].kind,
        ProbeKind::Ssh { dest, command } if dest == "deploy@host" && command == "true"
    ));
    let p = p.command("uptime").expect_status(ExpectStatus::Exact(200)).equals("x");
    assert!(matches!(&p.probes()[0].kind, ProbeKind::Ssh { command, .. } if command == "uptime"));
}

#[test]
fn custom_probe_has_no_timeout_of_its_own() {
    let p = Preflight::default().custom("own", 3).dns("d", "example.org");
    assert!(matches!(p.probes()[0].kind, ProbeKind::Custom { handle: 3 }));
    assert_eq!(p.probes()[0].timeout, None);
    assert_eq!(p.probes()[1].timeout, Some(default_probe_timeout()));
}

#[test]
fn modifiers_on_an_empty_builder_do_nothing() {
    let p = Preflight::new()
        .timeout(Duration::from_secs(1))
        .equals("x")
        .command("y")
        .expect_status(ExpectStatus::Exact(1));
    assert!(p.probes().is_empty());
}

#[test]
fn expected_status_is_an_exact_one_or_a_range() {
    assert!(ExpectStatus::Exact(204).matches(204));
    assert!(!ExpectStatus::Exact(204).matches(200));
    let range = ExpectStatus::Range { first: 200, last: 299 };
    assert!(range.matches(200) && range.matches(299));
    assert!(!range.matches(199) && !range.matches(300));
    assert_eq!(range.render(), "200..=299");
    assert_eq!(ExpectStatus::Exact(204).render(), "204");
}

// ── names ───────────────────────────────────────────────────────────────────

#[test]
fn unique_names_are_kept() {
    let p = Preflight::new().tcp("a", "x:1").http("b", "http://x/");
    assert_eq!(resolve_names(p.probes()), Ok(vec!["a".to_string(), "b".to_string()]));
}

#[test]
fn names_shared_across_types_get_the_type() {
    let p = Preflight::new().tcp("api", "x:1").http("api", "http://x/").dns("other", "x");
    assert_eq!(
        resolve_names(p.probes()),
        Ok(vec!["api(tcp)".to_string(), "api(http)".to_string(), "other".to_string()])
    );
}

#[test]
fn names_shared_within_a_type_get_the_target() {
    let p = Preflight::new()
        .tcp("db", "x:1")
        .tcp("db", "x:2")
        .env("db", "DB")
        .ssh("s", "a@b")
        .ssh("s", "c@d");
    assert_eq!(
        resolve_names(p.probes()),
        Ok(vec![
            "db(tcp[x:1])".to_string(),
            "db(tcp[x:2])".to_string(),
            "db(env)".to_string(),
            "s(ssh[a@b])".to_string(),
            "s(ssh[c@d])".to_string(),
        ])
    );
}

#[test]
fn genuine_duplicates_are_an_error() {
    let p = Preflight::new().tcp("db", "x:1").env("e", "E").tcp("db", "x:1");
    let e = resolve_names(p.probes()).unwrap_err();
    assert!(e.contains("duplicate probe name \"db\""), "{e}");
    let p = Preflight::new().custom("own", 0).custom("own", 1);
    let e = resolve_names(p.probes()).unwrap_err();
    assert!(e.contains("custom") && e.contains("\"own\""), "{e}");
}

// ── outcomes ────────────────────────────────────────────────────────────────

fn reason(outcome: ProbeOutcome) -> String {
    match outcome {
        ProbeOutcome::Failed(reason) => reason,
        ProbeOutcome::Passed => panic!("expected fail"),
    }
}

#[test]
fn env_probe_passes_when_var_set_and_nonempty() {
    let outcome = run_env("RIGTEST_PREFLIGHT_TEST_ENV_PASS", &EnvValue::Is("yes".into()), None);
    assert!(matches!(outcome, ProbeOutcome::Passed));
}

#[test]
fn env_probe_fails_when_var_unset() {
    let outcome = run_env("RIGTEST_PREFLIGHT_TEST_ENV_UNSET", &EnvValue::NotPresent, None);
    assert!(matches!(outcome, ProbeOutcome::Failed(_)));
}

#[test]
fn env_probe_equals_matches_exact_value() {
    let value = EnvValue::Is("prod".into());
    assert!(matches!(
        run_env("RIGTEST_PREFLIGHT_TEST_ENV_EQ", &value, Some("prod")),
        ProbeOutcome::Passed
    ));
    assert!(matches!(
        run_env("RIGTEST_PREFLIGHT_TEST_ENV_EQ", &value, Some("staging")),
        ProbeOutcome::Failed(_)
    ));
}

#[test]
fn env_probe_says_what_is_wrong() {
    assert_eq!(reason(run_env("V", &EnvValue::NotPresent, None)), "V is not set");
    assert_eq!(
        reason(run_env("V", &EnvValue::NotUnicode, Some("x"))),
        "V is set but is not valid UTF-8"
    );
    assert_eq!(
        reason(run_env("V", &EnvValue::Is(String::new()), None)),
        "V is set but empty"
    );
    assert_eq!(
        reason(run_env("V", &EnvValue::Is("a\"b".into()), Some("c"))),
        "V=\"a\\\"b\" does not equal expected \"c\""
    );
    assert!(matches!(
        run_env("V", &EnvValue::Is(String::new()), Some("")),
        ProbeOutcome::Passed
    ));
}

#[test]
fn tcp_and_dns_outcomes() {
    assert!(matches!(tcp_outcome("x:1", Ok(())), ProbeOutcome::Passed));
    assert_eq!(
        reason(tcp_outcome("x:1", Err("refused".into()))),
        "connect to x:1 failed: refused"
    );
    assert_eq!(dns_query("localhost"), "localhost:0");
    assert!(matches!(dns_outcome("h", Ok(true)), ProbeOutcome::Passed));
    assert_eq!(reason(dns_outcome("h", Ok(false))), "h resolved to no addresses");
    assert_eq!(reason(dns_outcome("h", Err("nx".into()))), "resolving h failed: nx");
}

#[test]
fn custom_probe_pass_path() {
    assert!(matches!(custom_outcome(Ok(())), ProbeOutcome::Passed));
}

#[test]
fn custom_probe_fail_path() {
    assert!(reason(custom_outcome(Err("nope".into()))).contains("nope"));
}

#[test]
fn custom_probe_timeout_path() {
    let p = Preflight::new().custom("slow", 0).timeout(Duration::from_millis(50));
    let msg = reason(timeout_outcome(&p.probes()[0].kind, Duration::from_millis(50)));
    assert_eq!(msg, "custom probe timed out after 0.050s");
}

#[test]
fn http_probe_exact_status_match() {
    let outcome = http_outcome("http://x/", &ExpectStatus::Exact(204), HttpReply::Status(204));
    assert!(matches!(outcome, ProbeOutcome::Passed));
}

#[test]
fn http_probe_fails_on_status_mismatch() {
    let expect = ExpectStatus::Range { first: 200, last: 299 };
    let msg = reason(http_outcome("http://x/", &expect, HttpReply::Status(500)));
    assert!(msg.contains("500"), "expected 500 in message, got {msg:?}");
    assert_eq!(msg, "GET http://x/ returned 500 (expected 200..=299)");
}

#[test]
fn http_probe_configurator_error_is_recorded_as_probe_failure() {
    let expect = ExpectStatus::Range { first: 200, last: 299 };
    let reply = HttpReply::ConfiguratorFailed("simulated configurator failure".into());
    let msg = reason(http_outcome("http://127.0.0.1:1/", &expect, reply));
    assert!(msg.contains("configurator failed"), "got {msg:?}");
    assert!(msg.contains("simulated configurator failure"), "got {msg:?}");
}

#[test]
fn http_probe_fails_where_there_is_no_answer() {
    let expect = ExpectStatus::Exact(200);
    let msg = reason(http_outcome("u", &expect, HttpReply::RequestFailed("refused".into())));
    assert_eq!(msg, "GET u failed: refused");
    let msg = reason(http_outcome("u", &expect, HttpReply::ClientFailed("tls".into())));
    assert_eq!(msg, "building http client failed: tls");
}

#[test]
fn ssh_probe_configurator_error_is_recorded_as_probe_failure() {
    let reply = SshReply::ConfiguratorFailed("simulated ssh configurator failure".into());
    let msg = reason(ssh_outcome("deploy@127.0.0.1", "true", reply));
    assert!(msg.contains("configurator failed"), "got {msg:?}");
    assert!(msg.contains("simulated ssh configurator failure"), "got {msg:?}");
}

#[test]
fn ssh_probe_follows_the_remote_command() {
    let ok = SshReply::Exited { success: true, status: "exit status: 0".into() };
    assert!(matches!(ssh_outcome("d", "true", ok), ProbeOutcome::Passed));
    let bad = SshReply::Exited { success: false, status: "exit status: 3".into() };
    assert_eq!(
        reason(ssh_outcome("d", "true", bad)),
        "ssh d: remote command \"true\" exited with exit status: 3"
    );
    assert_eq!(
        reason(ssh_outcome("d", "true", SshReply::ConnectFailed("no route".into()))),
        "ssh d: connect failed: no route"
    );
    assert_eq!(
        reason(ssh_outcome("d", "true", SshReply::CommandFailed("gone".into()))),
        "ssh d: running \"true\" failed: gone"
    );
}

// ── reports ─────────────────────────────────────────────────────────────────

fn result(name: &str, outcome: ProbeOutcome) -> ProbeResult {
    ProbeResult { name: name.to_string(), outcome, elapsed: Duration::from_millis(5) }
}

#[test]
fn probe_lines_carry_time_and_reason() {
    assert_eq!(
        render_probe_line(&result("api", ProbeOutcome::Passed), false),
        "PASS [0.005s] api"
    );
    assert_eq!(
        render_probe_line(&result("db", ProbeOutcome::Failed("down".into())), false),
        "FAIL [0.005s] db: down"
    );
}

#[test]
fn closing_lines_sum_up_or_list_the_probes() {
    assert_eq!(
        render_closing_lines(&[], Duration::from_secs(1), false),
        vec!["preflight result: 0 passed".to_string()]
    );
    let ok = [result("a", ProbeOutcome::Passed), result("b", ProbeOutcome::Passed)];
    assert_eq!(
        render_closing_lines(&ok, Duration::from_millis(1500), false),
        vec!["preflight result: 2 passed [1.50s]".to_string()]
    );
    let bad = [result("a", ProbeOutcome::Passed), result("b", ProbeOutcome::Failed("x".into()))];
    let rule = "─".repeat(60);
    assert_eq!(
        render_closing_lines(&bad, Duration::from_millis(1500), false),
        vec![
            rule.clone(),
            "preflight readiness:".to_string(),
            "  PASS [0.005s] a".to_string(),
            "  FAIL [0.005s] b: x".to_string(),
            rule,
        ]
    );
    assert_eq!(count_failed(&bad), 1);
}

#[test]
fn verdict_decides_whether_the_run_goes_on() {
    let ok = PreflightReport::of(vec![result("a", ProbeOutcome::Passed)]);
    assert!(ok.verdict.passed && ok.verdict.declared);
    assert!(matches!(after_preflight(&ok.verdict, false, 3), ControlFlow::Continue));
    assert!(records_preflight(&ok));
    let bad = PreflightReport::of(vec![
        result("a", ProbeOutcome::Failed("x".into())),
        result("b", ProbeOutcome::Failed("y".into())),
    ]);
    assert_eq!(bad.verdict.failed_count, 2);
    match after_preflight(&bad.verdict, false, 3) {
        ControlFlow::Abort(reason) => {
            assert_eq!(reason, "2 probes failed — aborting suite (3 tests not run)")
        }
        ControlFlow::Continue => panic!("expected an abort"),
    }
    assert!(matches!(after_preflight(&bad.verdict, true, 3), ControlFlow::Continue));
    assert_eq!(
        format_abort_message(1, 0),
        "1 probe failed — aborting suite (0 tests not run)"
    );
    let none = PreflightReport::none();
    assert!(none.verdict.passed && !none.verdict.declared);
    assert!(!records_preflight(&none));
}

#[test]
fn phase_runs_probes_only_where_they_are_declared() {
    match start_preflight(None, false) {
        PreflightStep::Done { lines, report } => {
            assert!(lines.is_empty());
            assert!(!report.unwrap().verdict.declared);
        }
        PreflightStep::Run { .. } => panic!("nothing is declared"),
    }
    match start_preflight(Some(Preflight::new().probes()), false) {
        PreflightStep::Done { lines, report } => {
            assert_eq!(lines, vec!["── preflight", "preflight result: 0 passed"]);
            let verdict = report.unwrap().verdict;
            assert!(verdict.declared && verdict.passed);
        }
        PreflightStep::Run { .. } => panic!("no probe is declared"),
    }
}

#[test]
fn phase_runs_no_probe_where_a_name_is_taken_twice() {
    let p = Preflight::new().custom("x", 0).custom("x", 1);
    match start_preflight(Some(p.probes()), false) {
        PreflightStep::Done { lines, report } => {
            assert_eq!(lines, vec!["── preflight"]);
            assert!(report.unwrap_err().contains("duplicate custom probe name \"x\""));
        }
        PreflightStep::Run { .. } => panic!("two probes cannot be told apart"),
    }
    let p = Preflight::new().tcp("api", "1.2.3.4:1").env("api", "X");
    match start_preflight(Some(p.probes()), false) {
        PreflightStep::Run { lines, names } => {
            assert_eq!(lines, vec!["── preflight"]);
            assert_eq!(names, resolve_names(p.probes()).unwrap());
        }
        PreflightStep::Done { .. } => panic!("the probes can be told apart"),
    }
}

#[test]
fn phase_ends_with_its_report() {
    let (lines, report) = finish_preflight(
        vec![result("a", ProbeOutcome::Passed)],
        Duration::from_millis(20),
        false,
    );
    assert_eq!(lines, vec!["preflight result: 1 passed [0.02s]"]);
    assert!(report.verdict.passed);
    let (lines, report) = finish_preflight(
        vec![result("a", ProbeOutcome::Failed("x".into()))],
        Duration::from_millis(20),
        false,
    );
    assert_eq!(lines[2], "  FAIL [0.005s] a: x");
    assert_eq!(report.verdict.failed_count, 1);
    assert_eq!(report.results.len(), 1);
}

#[test]
fn environment_probes_have_no_deadline() {
    let p = Preflight::new().env("mode", "MODE").tcp("api", "1.2.3.4:1");
    assert_eq!(deadline(&p.probes()[0]), None);
    assert_eq!(deadline(&p.probes()[1]), Some(default_probe_timeout()));
}

#[test]
fn profile_name_defaults_to_empty() {
    assert_eq!(active_profile_name(None), "");
    assert_eq!(active_profile_name(Some("staging".to_string())), "staging");
}

#[test]
fn running_probe_is_shown_by_its_name() {
    assert_eq!(render_running("api", false), "RUNNING api");
    let colored = render_running("api", true);
    assert!(colored.ends_with("RUNNING\u{1b}[0m api"));
    assert!(colored.starts_with("\u{1b}["));
}
