use rigtest::cargo::{
    build_args, build_failure, find_all_test_executables, forwarded_args, last_code,
    part_file_name, select_artifact, select_targets, target_directory, RunArgs,
};

fn sample_artifact(name: &str, kind: &str, executable: &str) -> String {
    format!(
        "{{\"reason\":\"compiler-artifact\",\"target\":{{\"name\":\"{name}\",\"kind\":[\"{kind}\"]}},\"executable\":\"{executable}\"}}"
    )
}

fn sample_non_artifact() -> String {
    "{\"reason\":\"build-script-executed\"}".to_string()
}

#[test]
fn finds_single_test_artifact() {
    let json = [
        sample_non_artifact(),
        sample_artifact("acceptance", "test", "/tmp/acceptance-abc"),
    ]
    .join("\n");
    assert_eq!(
        find_all_test_executables(&json),
        vec![("acceptance".to_string(), "/tmp/acceptance-abc".to_string())],
    );
}

#[test]
fn finds_multiple_test_artifacts() {
    let json = [
        sample_artifact("suite_a", "test", "/tmp/suite_a"),
        sample_artifact("suite_b", "test", "/tmp/suite_b"),
    ]
    .join("\n");
    assert_eq!(
        find_all_test_executables(&json),
        vec![
            ("suite_a".to_string(), "/tmp/suite_a".to_string()),
            ("suite_b".to_string(), "/tmp/suite_b".to_string()),
        ],
    );
}

#[test]
fn ignores_non_test_artifacts() {
    let json = sample_artifact("acceptance", "bin", "/tmp/acceptance-abc");
    assert!(find_all_test_executables(&json).is_empty());
}

#[test]
fn returns_empty_for_empty_input() {
    assert!(find_all_test_executables("").is_empty());
}

#[test]
fn handles_garbage_lines_gracefully() {
    let json = "not json at all\n{\"reason\":\"compiler-artifact\",\"target\":{\"name\":\"acceptance\",\"kind\":[\"test\"]},\"executable\":\"/tmp/x\"}";
    assert_eq!(
        find_all_test_executables(json),
        vec![("acceptance".to_string(), "/tmp/x".to_string())],
    );
}

#[test]
fn artifacts_need_a_name_and_a_program() {
    let kinds = Some(vec![None, Some("test".to_string())]);
    assert_eq!(
        select_artifact(Some("compiler-artifact"), &kinds, Some("a"), Some("/a")),
        Some(("a".to_string(), "/a".to_string()))
    );
    assert_eq!(select_artifact(Some("build-finished"), &kinds, Some("a"), Some("/a")), None);
    assert_eq!(select_artifact(None, &kinds, Some("a"), Some("/a")), None);
    assert_eq!(select_artifact(Some("compiler-artifact"), &None, Some("a"), Some("/a")), None);
    assert_eq!(select_artifact(Some("compiler-artifact"), &kinds, None, Some("/a")), None);
    assert_eq!(select_artifact(Some("compiler-artifact"), &kinds, Some("a"), None), None);
    let json = "{\"reason\":\"compiler-artifact\",\"target\":{\"name\":\"a\",\"kind\":[\"test\"]},\"executable\":null}";
    assert!(find_all_test_executables(json).is_empty());
}

#[test]
fn target_directory_is_read_from_metadata() {
    assert!(target_directory("{\"target_directory\":\"/w/target\"}").is_ok_and(|d| d == "/w/target"));
    assert!(target_directory("{}").is_err());
    assert!(target_directory("nonsense").is_err());
}

fn strings(parts: &[&str]) -> Vec<String> {
    parts.iter().map(|p| p.to_string()).collect()
}

fn no_args() -> RunArgs {
    RunArgs {
        jobs: None,
        seed: None,
        filter: None,
        tag: vec![],
        not_tag: vec![],
        package: None,
        test: vec![],
        no_capture: false,
        junit: false,
        retries: None,
        no_preflight: false,
        preflight_only: false,
        continue_on_preflight_failure: false,
    }
}

#[test]
fn build_arguments_name_package_and_targets() {
    assert_eq!(
        build_args(&no_args()),
        strings(&["test", "--no-run", "--message-format=json"])
    );
    let mut args = no_args();
    args.package = Some("p".to_string());
    args.test = strings(&["a", "b"]);
    assert_eq!(
        build_args(&args),
        strings(&[
            "test",
            "--no-run",
            "--message-format=json",
            "--package",
            "p",
            "--test",
            "a",
            "--test",
            "b"
        ])
    );
}

#[test]
fn arguments_are_forwarded_in_order() {
    assert!(forwarded_args(&no_args()).is_empty());
    let mut args = no_args();
    args.jobs = Some(4);
    args.seed = Some(u64::MAX);
    args.filter = Some("login".to_string());
    args.tag = strings(&["x", "y"]);
    args.not_tag = strings(&["z"]);
    args.no_capture = true;
    args.junit = true;
    args.retries = Some(0);
    args.no_preflight = true;
    args.preflight_only = true;
    args.continue_on_preflight_failure = true;
    assert_eq!(
        forwarded_args(&args),
        strings(&[
            "--jobs",
            "4",
            "--seed",
            "18446744073709551615",
            "--filter",
            "login",
            "--tag",
            "x",
            "--tag",
            "y",
            "--not-tag",
            "z",
            "--no-capture",
            "--retries",
            "0",
            "--no-preflight",
            "--preflight-only",
            "--continue-on-preflight-failure",
            "--reporter",
            "junit"
        ])
    );
}

fn targets() -> Vec<(String, String)> {
    vec![
        ("a".to_string(), "/a".to_string()),
        ("b".to_string(), "/b".to_string()),
        ("a".to_string(), "/c".to_string()),
    ]
}

#[test]
fn targets_are_chosen_by_name() {
    assert_eq!(select_targets(targets(), &vec![]), Ok(targets()));
    assert_eq!(
        select_targets(targets(), &strings(&["a"])),
        Ok(vec![
            ("a".to_string(), "/a".to_string()),
            ("a".to_string(), "/c".to_string())
        ])
    );
    assert_eq!(
        select_targets(targets(), &strings(&["x", "a", "y"])),
        Err("unknown rig test target(s): 'x', 'y'. Run without --test to run all rig targets."
            .to_string())
    );
    assert!(select_targets(vec![], &vec![])
        .is_err_and(|e| e.starts_with("no rigtest test targets found.")));
}

#[test]
fn command_succeeds_where_every_program_did() {
    assert_eq!(last_code(&vec![]), 0);
    assert_eq!(last_code(&vec![Some(0), Some(0)]), 0);
    assert_eq!(last_code(&vec![Some(2), Some(0), Some(1), Some(0)]), 1);
    assert_eq!(last_code(&vec![Some(2), None]), 1);
    assert_eq!(last_code(&vec![Some(-6), Some(0)]), -6);
}

#[test]
fn build_failure_and_part_names() {
    assert_eq!(build_failure(Some(101)), "cargo test --no-run failed with exit code 101");
    assert_eq!(build_failure(None), "cargo test --no-run failed with exit code unknown");
    assert_eq!(part_file_name(Some("acceptance-9d")), "acceptance-9d.xml");
    assert_eq!(part_file_name(None), "part.xml");
}
