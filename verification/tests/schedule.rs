use rigtest::duration::Duration;
use rigtest::registry::TestCase;
use rigtest::schedule::{effective_timeout, Phase, PlannedCase, Schedule};

fn make_case(name: &'static str) -> TestCase {
    TestCase::new(name, "test_module", "test.rs", false, None, None, false, 0, false, &[])
}

fn leak(tc: TestCase) -> &'static TestCase {
    Box::leak(Box::new(tc))
}

fn parallel_phase<'a>(
    schedule: &'a Schedule<'static>,
) -> (&'a [PlannedCase<'static>], usize, &'a [&'static str]) {
    match &schedule.phases[0] {
        Phase::Parallel { cases, cap, groups } => (cases, *cap, groups),
        Phase::Exclusive { .. } => panic!("phase 0 must be Parallel"),
    }
}

fn exclusive_phase<'a>(schedule: &'a Schedule<'static>) -> &'a [PlannedCase<'static>] {
    match &schedule.phases[1] {
        Phase::Exclusive { cases } => cases,
        Phase::Parallel { .. } => panic!("phase 1 must be Exclusive"),
    }
}

#[test]
fn exclusive_phase_follows_parallel_phase() {
    let mut serial = make_case("s1");
    serial.serial = true;
    let cases = vec![leak(make_case("p1")), leak(serial), leak(make_case("p2"))];

    let schedule = Schedule::plan(cases, 4, None, None);

    let (parallel, _, _) = parallel_phase(&schedule);
    let exclusive = exclusive_phase(&schedule);
    let parallel_names: Vec<&str> = parallel.iter().map(|pc| pc.case.name).collect();
    let exclusive_names: Vec<&str> = exclusive.iter().map(|pc| pc.case.name).collect();
    assert_eq!(parallel_names, vec!["p1", "p2"]);
    assert_eq!(exclusive_names, vec!["s1"]);
}

#[test]
fn parallel_phase_reports_distinct_sorted_groups() {
    let mk = |name, group| {
        let mut tc = make_case(name);
        tc.serial_group = Some(group);
        leak(tc)
    };
    let cases = vec![
        mk("b1", "beta"),
        mk("a1", "alpha"),
        mk("a2", "alpha"),
        leak(make_case("plain")),
    ];

    let schedule = Schedule::plan(cases, 4, None, None);

    let (_, _, groups) = parallel_phase(&schedule);
    assert_eq!(groups, ["alpha", "beta"]);
}

#[test]
fn planned_case_carries_its_group() {
    let mut tc = make_case("g");
    tc.serial_group = Some("db");
    let schedule = Schedule::plan(vec![leak(tc)], 4, None, None);
    let (cases, _, _) = parallel_phase(&schedule);
    assert_eq!(cases[0].serial_group, Some("db"));
}

fn planned_timeout(tc: TestCase, suite_default: Option<Duration>) -> Option<Duration> {
    let schedule = Schedule::plan(vec![leak(tc)], 4, None, suite_default);
    parallel_phase(&schedule).0[0].timeout
}

#[test]
fn timeout_uses_suite_default_when_no_per_case() {
    let default = Some(Duration::from_secs(5));
    assert_eq!(planned_timeout(make_case("t"), default), default);
}

#[test]
fn timeout_per_case_wins_over_default() {
    let mut tc = make_case("t");
    tc.timeout = Some(Duration::from_secs(1));
    assert_eq!(
        planned_timeout(tc, Some(Duration::from_secs(5))),
        Some(Duration::from_secs(1))
    );
}

#[test]
fn timeout_no_timeout_forces_none() {
    let mut tc = make_case("t");
    tc.no_timeout = true;
    assert_eq!(planned_timeout(tc, Some(Duration::from_secs(5))), None);
}

#[test]
fn timeout_none_when_nothing_set() {
    assert_eq!(planned_timeout(make_case("t"), None), None);
}

fn planned_attempts(tc: TestCase, retries_override: Option<usize>) -> u32 {
    let schedule = Schedule::plan(vec![leak(tc)], 4, retries_override, None);
    parallel_phase(&schedule).0[0].max_attempts
}

#[test]
fn attempts_default_to_declared_retries_plus_one() {
    let mut tc = make_case("t");
    tc.retries = 2;
    assert_eq!(planned_attempts(tc, None), 3);
}

#[test]
fn attempts_override_replaces_declared_count() {
    let mut tc = make_case("t");
    tc.retries = 0;
    assert_eq!(planned_attempts(tc, Some(5)), 6);
}

#[test]
fn attempts_override_zero_forces_single_attempt() {
    let mut tc = make_case("t");
    tc.retries = 3;
    assert_eq!(planned_attempts(tc, Some(0)), 1);
}

#[test]
fn attempts_saturate_at_the_largest_count() {
    let mut tc = make_case("t");
    tc.retries = u32::MAX;
    assert_eq!(planned_attempts(tc, None), u32::MAX);
    assert_eq!(planned_attempts(make_case("t"), Some(usize::MAX)), u32::MAX);
}

#[test]
fn no_timeout_wins_over_the_case_timeout() {
    let mut tc = make_case("t");
    tc.no_timeout = true;
    tc.timeout = Some(Duration::from_secs(1));
    assert_eq!(effective_timeout(&tc, Some(Duration::from_secs(5))), None);
}

#[test]
fn every_case_is_planned_once() {
    let mut serial = make_case("s");
    serial.serial = true;
    let cases = vec![leak(make_case("a")), leak(serial), leak(make_case("a"))];
    let schedule = Schedule::plan(cases, 1, None, None);
    let mut all: Vec<&str> = parallel_phase(&schedule)
        .0
        .iter()
        .chain(exclusive_phase(&schedule))
        .map(|pc| pc.case.name)
        .collect();
    all.sort();
    assert_eq!(all, vec!["a", "a", "s"]);
}

#[test]
fn mixed_suite_plan_is_fully_characterized() {
    let bare = {
        let mut tc = make_case("bare_serial");
        tc.serial = true;
        leak(tc)
    };
    let a1 = {
        let mut tc = make_case("a1");
        tc.serial_group = Some("grp");
        leak(tc)
    };
    let a2 = {
        let mut tc = make_case("a2");
        tc.serial_group = Some("grp");
        leak(tc)
    };
    let other = {
        let mut tc = make_case("other");
        tc.serial_group = Some("zzz");
        leak(tc)
    };
    let plain = leak(make_case("plain"));
    let timed = {
        let mut tc = make_case("timed");
        tc.timeout = Some(Duration::from_secs(1));
        leak(tc)
    };

    let suite_default = Some(Duration::from_secs(5));
    let cases = vec![bare, a1, a2, other, plain, timed];

    let schedule = Schedule::plan(cases, 4, None, suite_default);

    let expected = Schedule {
        phases: vec![
            Phase::Parallel {
                cap: 4,
                groups: vec!["grp", "zzz"],
                cases: vec![
                    PlannedCase {
                        case: a1,
                        timeout: suite_default,
                        max_attempts: 1,
                        serial_group: Some("grp"),
                    },
                    PlannedCase {
                        case: a2,
                        timeout: suite_default,
                        max_attempts: 1,
                        serial_group: Some("grp"),
                    },
                    PlannedCase {
                        case: other,
                        timeout: suite_default,
                        max_attempts: 1,
                        serial_group: Some("zzz"),
                    },
                    PlannedCase {
                        case: plain,
                        timeout: suite_default,
                        max_attempts: 1,
                        serial_group: None,
                    },
                    PlannedCase {
                        case: timed,
                        timeout: Some(Duration::from_secs(1)),
                        max_attempts: 1,
                        serial_group: None,
                    },
                ],
            },
            Phase::Exclusive {
                cases: vec![PlannedCase {
                    case: bare,
                    timeout: suite_default,
                    max_attempts: 1,
                    serial_group: None,
                }],
            },
        ],
    };

    assert_eq!(schedule, expected);
}
