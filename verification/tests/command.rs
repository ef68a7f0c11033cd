use rigtest::cargo::RunArgs;
use rigtest::command::{Answer, CommandRun, CommandStep};
use rigtest::orchestrator::{exit_code, Registrations, RunError};
use rigtest::preflight_runner::PreflightVerdict;
use rigtest::protocol::single_args;
use rigtest::registry::TestCase;
use rigtest::runner::find_case;
use rigtest::scheduler::RuntimeArgs;
use rigtest::suite::{SuiteAnswer, SuiteRun, SuiteStep};

fn args(test: &[&str], junit: bool) -> RunArgs {
    RunArgs {
        jobs: Some(2),
        seed: None,
        filter: None,
        tag: vec![],
        not_tag: vec![],
        package: None,
        test: test.iter().map(|t| t.to_string()).collect(),
        no_capture: false,
        junit,
        retries: None,
        no_preflight: false,
        preflight_only: false,
        continue_on_preflight_failure: false,
    }
}

fn built() -> Answer {
    let line = |name: &str| {
        format!(
            "{{\"reason\":\"compiler-artifact\",\"target\":{{\"name\":\"{name}\",\"kind\":[\"test\"]}},\"executable\":\"/{name}\"}}\n"
        )
    };
    Answer::Built {
        success: true,
        code: Some(0),
        stdout: line("a") + &line("b") + &line("c"),
    }
}

fn probe(run: CommandRun, step: CommandStep, want: &str, ours: bool) -> (CommandRun, CommandStep) {
    match step {
        CommandStep::Probe { executable } => assert_eq!(executable, want),
        other => panic!("{other:?}"),
    }
    run.answer(Answer::Probed { ours })
}

fn ran(run: CommandRun, step: CommandStep, want: &str, code: Option<i32>) -> (CommandRun, CommandStep) {
    match step {
        CommandStep::Run { name, executable, args } => {
            assert_eq!(name, want);
            assert_eq!(executable, format!("/{want}"));
            assert!(args.starts_with(&["--jobs".to_string(), "2".to_string()]));
        }
        other => panic!("{other:?}"),
    }
    run.answer(Answer::Ran { code })
}

#[test]
fn command_runs_our_programs_in_order() {
    let (run, step) = CommandRun::start(args(&[], false));
    match step {
        CommandStep::Build { args } => assert_eq!(args[0], "test"),
        other => panic!("{other:?}"),
    }
    let (run, step) = run.answer(built());
    let (run, step) = probe(run, step, "/a", true);
    let (run, step) = probe(run, step, "/b", false);
    let (run, step) = probe(run, step, "/c", true);
    let (run, step) = ran(run, step, "a", Some(3));
    let (_, step) = ran(run, step, "c", Some(0));
    assert!(matches!(step, CommandStep::Exit { code: 3 }), "{step:?}");
}

#[test]
fn command_merges_the_report_before_it_ends() {
    let (run, _) = CommandRun::start(args(&["b"], true));
    let (run, step) = run.answer(built());
    let (run, step) = probe(run, step, "/a", true);
    let (run, step) = probe(run, step, "/b", true);
    let (run, step) = probe(run, step, "/c", true);
    assert!(matches!(step, CommandStep::Prepare), "{step:?}");
    let (run, step) = run.answer(Answer::Prepared);
    let (run, step) = ran(run, step, "b", None);
    match step {
        CommandStep::Merge { targets } => {
            assert_eq!(targets, vec![("b".to_string(), "/b".to_string())])
        }
        other => panic!("{other:?}"),
    }
    let (_, step) = run.answer(Answer::Merged);
    assert!(matches!(step, CommandStep::Exit { code: 1 }), "{step:?}");
}

#[test]
fn command_ends_where_the_build_or_the_choice_fails() {
    let (run, _) = CommandRun::start(args(&[], false));
    let (_, step) =
        run.answer(Answer::Built { success: false, code: Some(101), stdout: String::new() });
    assert!(
        matches!(&step, CommandStep::Fail { message } if message == "cargo test --no-run failed with exit code 101"),
        "{step:?}"
    );
    let (run, _) = CommandRun::start(args(&["x"], false));
    let (run, step) = run.answer(built());
    let (run, step) = probe(run, step, "/a", true);
    let (run, step) = probe(run, step, "/b", true);
    let (_, step) = probe(run, step, "/c", true);
    assert!(
        matches!(&step, CommandStep::Fail { message } if message.contains("'x'")),
        "{step:?}"
    );
    let (run, _) = CommandRun::start(args(&[], false));
    let (_, step) =
        run.answer(Answer::Built { success: true, code: Some(0), stdout: String::new() });
    assert!(
        matches!(&step, CommandStep::Fail { message } if message.starts_with("no rigtest test targets found")),
        "{step:?}"
    );
}

// ── suites ──────────────────────────────────────────────────────────────────

fn registrations(preflight: usize, setup: usize, teardown: usize) -> Registrations {
    Registrations {
        preflight,
        global_setup: setup,
        global_teardown: teardown,
        default_timeout: 0,
        http_client: 0,
        ssh_client: 0,
    }
}

fn verdict(failed_count: usize) -> SuiteAnswer {
    SuiteAnswer::Probed {
        verdict: Ok(PreflightVerdict { declared: true, passed: failed_count == 0, failed_count }),
    }
}

fn ended(step: SuiteStep) -> Result<(), RunError> {
    match step {
        SuiteStep::End { result } => result,
        other => panic!("{other:?}"),
    }
}

#[test]
fn suite_runs_probes_setup_tests_and_teardown() {
    let args = RuntimeArgs::none();
    let (run, step) = SuiteRun::start(&args, &registrations(1, 1, 1), 3);
    assert!(matches!(step, SuiteStep::Probe), "{step:?}");
    let (run, step) = run.answer(verdict(0));
    assert!(matches!(step, SuiteStep::Setup), "{step:?}");
    let (run, step) = run.answer(SuiteAnswer::SetUp);
    assert!(matches!(step, SuiteStep::Execute), "{step:?}");
    let (run, step) = run.answer(SuiteAnswer::Executed { passed: 1, skipped: 1, total: 3 });
    assert!(
        matches!(step, SuiteStep::Finish { passed: 1, skipped: 1, total: 3 }),
        "{step:?}"
    );
    let (run, step) = run.answer(SuiteAnswer::Finished { result: Ok(()) });
    assert!(matches!(step, SuiteStep::Teardown), "{step:?}");
    let (_, step) = run.answer(SuiteAnswer::TornDown);
    match ended(step) {
        Err(RunError::Other(e)) => assert_eq!(e, "Test suite failed: 1/3 passed"),
        other => panic!("{other:?}"),
    }
}

#[test]
fn bare_suite_goes_straight_to_its_tests() {
    let args = RuntimeArgs::none();
    let (run, step) = SuiteRun::start(&args, &registrations(0, 0, 0), 1);
    assert!(matches!(step, SuiteStep::Execute), "{step:?}");
    let (run, _) = run.answer(SuiteAnswer::Executed { passed: 1, skipped: 0, total: 1 });
    let (_, step) = run.answer(SuiteAnswer::Finished { result: Err("disk full".to_string()) });
    assert!(matches!(ended(step), Err(RunError::Other(e)) if e == "disk full"));
}

#[test]
fn failed_probes_stop_the_suite_unless_told_otherwise() {
    let mut args = RuntimeArgs::none();
    let (run, _) = SuiteRun::start(&args, &registrations(1, 1, 1), 4);
    let (run, step) = run.answer(verdict(2));
    assert!(matches!(step, SuiteStep::Flush), "{step:?}");
    let (_, step) = run.answer(SuiteAnswer::Flushed);
    let result = ended(step);
    assert_eq!(exit_code(&result), 2);
    match result {
        Err(RunError::Preflight(e)) => {
            assert_eq!(e, "2 probes failed — aborting suite (4 tests not run)")
        }
        other => panic!("{other:?}"),
    }
    args.continue_on_preflight_failure = true;
    let (run, _) = SuiteRun::start(&args, &registrations(1, 0, 0), 4);
    let (_, step) = run.answer(verdict(2));
    assert!(matches!(step, SuiteStep::Execute), "{step:?}");
    let (run, _) = SuiteRun::start(&args, &registrations(1, 0, 0), 4);
    let (_, step) =
        run.answer(SuiteAnswer::Probed { verdict: Err("duplicate probe".to_string()) });
    assert!(matches!(ended(step), Err(RunError::Preflight(e)) if e == "duplicate probe"));
}

#[test]
fn probes_only_runs_nothing_else() {
    let mut args = RuntimeArgs::none();
    args.preflight_only = true;
    let (_, step) = SuiteRun::start(&args, &registrations(0, 1, 1), 4);
    assert!(matches!(step, SuiteStep::NothingDeclared), "{step:?}");
    let (run, step) = SuiteRun::start(&args, &registrations(1, 1, 1), 4);
    assert!(matches!(step, SuiteStep::Probe), "{step:?}");
    let (_, step) = run.answer(verdict(0));
    assert_eq!(exit_code(&ended(step)), 0);
    let (run, _) = SuiteRun::start(&args, &registrations(1, 1, 1), 4);
    let (_, step) = run.answer(verdict(1));
    assert_eq!(exit_code(&ended(step)), 2);
    args.no_preflight = true;
    let (_, step) = SuiteRun::start(&args, &registrations(1, 1, 1), 4);
    assert!(matches!(step, SuiteStep::NothingDeclared), "{step:?}");
}

#[test]
fn suite_refuses_wrong_registrations_and_reporters() {
    let mut args = RuntimeArgs::none();
    args.reporter = Some("tap".to_string());
    let (_, step) = SuiteRun::start(&args, &registrations(2, 0, 0), 1);
    assert!(
        matches!(&step, SuiteStep::Refuse { message } if message.contains("#[preflight] function may be defined, found 2")),
        "{step:?}"
    );
    let (_, step) = SuiteRun::start(&args, &registrations(1, 0, 0), 1);
    assert!(matches!(ended(step), Err(RunError::Other(e)) if e.contains("'tap'")));
    args.reporter = Some("junit".to_string());
    let (_, step) = SuiteRun::start(&args, &registrations(0, 0, 0), 1);
    assert!(matches!(step, SuiteStep::Execute), "{step:?}");
}

// ── single tests ────────────────────────────────────────────────────────────

#[test]
fn single_test_is_found_by_its_name() {
    let mk = |name, module| TestCase::new(name, module, "f", false, None, None, false, 0, false, &[]);
    let cases = [mk("a", "m"), mk("b", "first"), mk("b", "second")];
    let refs: Vec<&TestCase> = cases.iter().collect();
    assert_eq!(find_case(&refs, "b"), Ok(1));
    assert_eq!(
        find_case(&refs, "c"),
        Err("cargo-rigtest: no test named 'c'".to_string())
    );
    assert_eq!(
        single_args("b", "RIG_STATE_0"),
        vec!["--run-single", "b", "--state-env-var", "RIG_STATE_0"]
    );
}
