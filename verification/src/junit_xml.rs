//! JUnit reports as XML: how a report is written, and how the parts that the
//! test programs wrote become one.

use crate::duration;
use crate::junit;
use crate::junit::{CaseStatus, FailureKind, JunitReport, Rerun, Suite};
use crate::text;
use vstd::prelude::*;
use vstd::string::*;

verus! {

// ── what quick_junit's values hold ──────────────────────────────────────────

/// A point in time: seconds since the beginning of 1970, nanoseconds, and the
/// seconds by which the local time is ahead.
pub struct Instant {
    pub secs: int,
    pub nanos: int,
    pub offset: int,
}

/// What a `quick_junit::TestRerun` holds.
pub struct XmlRerun {
    pub kind: FailureKind,
    pub timestamp: Option<Instant>,
    pub time: Option<nat>,
    pub message: Option<Seq<char>>,
    pub ty: Option<Seq<char>>,
    pub stack_trace: Option<Seq<char>>,
    pub system_out: Option<Seq<char>>,
    pub system_err: Option<Seq<char>>,
    pub description: Option<Seq<char>>,
}

/// What a `quick_junit::TestCaseStatus` holds.
pub enum XmlStatus {
    Success { flaky_runs: Seq<XmlRerun> },
    NonSuccess {
        kind: FailureKind,
        message: Option<Seq<char>>,
        ty: Option<Seq<char>>,
        description: Option<Seq<char>>,
        /// Whether the runs are reported as flaky, and not as rerun.
        flaky: bool,
        runs: Seq<XmlRerun>,
    },
    Skipped {
        message: Option<Seq<char>>,
        ty: Option<Seq<char>>,
        description: Option<Seq<char>>,
    },
}

/// What a `quick_junit::TestCase` holds.
pub struct XmlCase {
    pub name: Seq<char>,
    pub classname: Option<Seq<char>>,
    pub assertions: Option<nat>,
    pub timestamp: Option<Instant>,
    pub time: Option<nat>,
    pub status: XmlStatus,
    pub system_out: Option<Seq<char>>,
    pub system_err: Option<Seq<char>>,
    pub extra: Seq<(Seq<char>, Seq<char>)>,
    pub properties: Seq<(Seq<char>, Seq<char>)>,
}

/// What a `quick_junit::TestSuite` holds.
pub struct XmlSuite {
    pub name: Seq<char>,
    pub tests: nat,
    pub skipped: nat,
    pub disabled: Option<nat>,
    pub errors: nat,
    pub failures: nat,
    pub timestamp: Option<Instant>,
    pub time: Option<nat>,
    pub cases: Seq<XmlCase>,
    pub properties: Seq<(Seq<char>, Seq<char>)>,
    pub system_out: Option<Seq<char>>,
    pub system_err: Option<Seq<char>>,
    pub extra: Seq<(Seq<char>, Seq<char>)>,
}

/// What a `quick_junit::Report` holds.
pub struct XmlReport {
    pub name: Option<Seq<char>>,
    pub uuid: Option<nat>,
    pub timestamp: Option<Instant>,
    pub time: Option<nat>,
    pub tests: nat,
    pub failures: nat,
    pub errors: nat,
    pub skipped: nat,
    pub disabled: Option<nat>,
    pub suites: Seq<XmlSuite>,
}

#[verifier::external_type_specification]
#[verifier::external_body]
pub struct ExTestRerun(quick_junit::TestRerun);

#[verifier::external_type_specification]
#[verifier::external_body]
pub struct ExTestCaseStatus(quick_junit::TestCaseStatus);

#[verifier::external_type_specification]
#[verifier::external_body]
pub struct ExTestSuite(quick_junit::TestSuite);

#[verifier::external_type_specification]
#[verifier::external_body]
pub struct ExReport(quick_junit::Report);

/// What an attempt holds.
pub uninterp spec fn rerun_of(rerun: quick_junit::TestRerun) -> XmlRerun;

/// What a status holds.
pub uninterp spec fn status_of(status: quick_junit::TestCaseStatus) -> XmlStatus;

/// What a suite holds.
pub uninterp spec fn suite_of(suite: quick_junit::TestSuite) -> XmlSuite;

/// What a report holds.
pub uninterp spec fn report_of(report: quick_junit::Report) -> XmlReport;

/// What `quick_junit::XmlString::new` keeps of a text: what XML can hold, with
/// the control sequences of terminals removed.
pub uninterp spec fn xml_text(s: Seq<char>) -> Seq<char>;

/// What is kept of a text, where there is one.
pub open spec fn xml_option(s: Option<Seq<char>>) -> Option<Seq<char>> {
    match s {
        Some(s) => Some(xml_text(s)),
        None => None,
    }
}

/// Whether a text holds no control character but line feeds.
pub open spec fn plain(s: Seq<char>) -> bool {
    forall|i: int|
        0 <= i < s.len() ==> (#[trigger] s[i] == '\n' || (s[i] as u32 >= 32 && !(128 <= s[i] as u32
            <= 159)))
}

/// The attempts of a list.
pub open spec fn reruns_of(v: Seq<quick_junit::TestRerun>) -> Seq<XmlRerun> {
    v.map_values(|r: quick_junit::TestRerun| rerun_of(r))
}

/// The suites of a list.
pub open spec fn suites_of(v: Seq<quick_junit::TestSuite>) -> Seq<XmlSuite> {
    v.map_values(|s: quick_junit::TestSuite| suite_of(s))
}

// ── attempts and statuses ───────────────────────────────────────────────────

/// Makes a `quick_junit::TestRerun` of that kind with `TestRerun::new` and its
/// setters. It holds what it is given and nothing else.
#[verifier::external_body]
fn new_rerun(
    kind: FailureKind,
    secs: u64,
    nanos: u32,
    message: &str,
    ty: &str,
    system_out: Option<&str>,
    system_err: Option<&str>,
) -> (r: quick_junit::TestRerun)
    requires
        nanos < duration::NANOS_PER_SEC,
    ensures
        rerun_of(r) == (XmlRerun {
            kind,
            timestamp: None,
            time: Some((secs * duration::NANOS_PER_SEC + nanos) as nat),
            message: Some(xml_text(message@)),
            ty: Some(xml_text(ty@)),
            stack_trace: None,
            system_out: xml_option(system_out.deep_view()),
            system_err: xml_option(system_err.deep_view()),
            description: None,
        }),
{
    let mut r = quick_junit::TestRerun::new(match kind {
        FailureKind::Failure => quick_junit::NonSuccessKind::Failure,
        FailureKind::Error => quick_junit::NonSuccessKind::Error,
    });
    r.set_time(std::time::Duration::new(secs, nanos)).set_message(message).set_type(ty);
    r.system_out = system_out.map(quick_junit::XmlString::new);
    r.system_err = system_err.map(quick_junit::XmlString::new);
    r
}

/// Makes the status of a test that passed with `TestCaseStatus::success`, and
/// adds the attempts with `add_reruns`.
#[verifier::external_body]
fn success_status(flaky_runs: Vec<quick_junit::TestRerun>) -> (r: quick_junit::TestCaseStatus)
    ensures
        status_of(r) == (XmlStatus::Success { flaky_runs: reruns_of(flaky_runs@) }),
{
    let mut status = quick_junit::TestCaseStatus::success();
    status.add_reruns(flaky_runs);
    status
}

/// Makes the status of a test that failed with `TestCaseStatus::non_success`
/// and its setters, and adds the attempts with `add_reruns`.
#[verifier::external_body]
fn non_success_status(
    kind: FailureKind,
    message: &str,
    ty: Option<&str>,
    runs: Vec<quick_junit::TestRerun>,
) -> (r: quick_junit::TestCaseStatus)
    ensures
        status_of(r) == (XmlStatus::NonSuccess {
            kind,
            message: Some(xml_text(message@)),
            ty: xml_option(ty.deep_view()),
            description: None,
            flaky: false,
            runs: reruns_of(runs@),
        }),
{
    let mut status = quick_junit::TestCaseStatus::non_success(match kind {
        FailureKind::Failure => quick_junit::NonSuccessKind::Failure,
        FailureKind::Error => quick_junit::NonSuccessKind::Error,
    });
    status.set_message(message).add_reruns(runs);
    status.set_rerun_kind(quick_junit::FlakyOrRerun::Rerun);
    if let Some(ty) = ty {
        status.set_type(ty);
    }
    status
}

/// Makes the status of a test that was skipped with `TestCaseStatus::skipped`
/// and `set_message`.
#[verifier::external_body]
fn skipped_status(message: Option<&str>) -> (r: quick_junit::TestCaseStatus)
    ensures
        status_of(r) == (XmlStatus::Skipped {
            message: xml_option(message.deep_view()),
            ty: None,
            description: None,
        }),
{
    let mut status = quick_junit::TestCaseStatus::skipped();
    if let Some(message) = message {
        status.set_message(message);
    }
    status
}

// ── suites ──────────────────────────────────────────────────────────────────

/// A suite of that name with nothing in it.
pub open spec fn empty_suite(name: Seq<char>) -> XmlSuite {
    XmlSuite {
        name,
        tests: 0,
        skipped: 0,
        disabled: None,
        errors: 0,
        failures: 0,
        timestamp: None,
        time: None,
        cases: seq![],
        properties: seq![],
        system_out: None,
        system_err: None,
        extra: seq![],
    }
}

/// Makes a suite with `TestSuite::new`. A plain name is kept as it is.
#[verifier::external_body]
fn new_suite(name: &str) -> (r: quick_junit::TestSuite)
    ensures
        suite_of(r) == empty_suite(xml_text(name@)),
        plain(name@) ==> suite_of(r).name == name@,
{
    quick_junit::TestSuite::new(name)
}

/// Sets the time at which a suite was started with `TestSuite::set_timestamp`,
/// in universal time. `chrono` has every point in time of the years that are
/// asked for.
#[verifier::external_body]
fn set_timestamp(suite: &mut quick_junit::TestSuite, secs: i64, nanos: u32)
    requires
        junit::in_calendar(secs as int, nanos as int),
    ensures
        suite_of(*final(suite)) == (XmlSuite {
            timestamp: Some(Instant { secs: secs as int, nanos: nanos as int, offset: 0 }),
            ..suite_of(*old(suite))
        }),
{
    suite.set_timestamp(chrono::DateTime::from_timestamp(secs, nanos).unwrap());
}

/// Sets the time that a suite took with `TestSuite::set_time`.
#[verifier::external_body]
fn set_time(suite: &mut quick_junit::TestSuite, secs: u64, nanos: u32)
    requires
        nanos < duration::NANOS_PER_SEC,
    ensures
        suite_of(*final(suite)) == (XmlSuite {
            time: Some((secs * duration::NANOS_PER_SEC + nanos) as nat),
            ..suite_of(*old(suite))
        }),
{
    suite.set_time(std::time::Duration::new(secs, nanos));
}

/// Adds a property to a suite with `TestSuite::add_property`.
#[verifier::external_body]
fn add_property(suite: &mut quick_junit::TestSuite, name: &str, value: &str)
    ensures
        suite_of(*final(suite)) == (XmlSuite {
            properties: suite_of(*old(suite)).properties.push((xml_text(name@), xml_text(value@))),
            ..suite_of(*old(suite))
        }),
{
    suite.add_property(quick_junit::Property::new(name, value));
}

/// Adds an attribute to a suite that has none of its own: inserts it into the
/// map `extra`.
#[verifier::external_body]
fn set_attribute(suite: &mut quick_junit::TestSuite, name: &str, value: &str)
    requires
        suite_of(*old(suite)).extra.len() == 0,
    ensures
        suite_of(*final(suite)) == (XmlSuite {
            extra: seq![(xml_text(name@), xml_text(value@))],
            ..suite_of(*old(suite))
        }),
{
    suite.extra.insert(name.into(), value.into());
}

/// A suite with one case more, and counted accordingly.
pub open spec fn with_case(suite: XmlSuite, case: XmlCase) -> XmlSuite {
    XmlSuite {
        tests: suite.tests + 1,
        failures: suite.failures + if case.status is NonSuccess
            && case.status->NonSuccess_kind == FailureKind::Failure {
            1nat
        } else {
            0
        },
        errors: suite.errors + if case.status is NonSuccess && case.status->NonSuccess_kind
            == FailureKind::Error {
            1nat
        } else {
            0
        },
        skipped: suite.skipped + if case.status is Skipped {
            1nat
        } else {
            0
        },
        cases: suite.cases.push(case),
        ..suite
    }
}

/// A case with no more than what a test is reported with.
pub open spec fn simple_case(
    name: Seq<char>,
    classname: Option<Seq<char>>,
    time: nat,
    status: XmlStatus,
    system_out: Option<Seq<char>>,
    system_err: Option<Seq<char>>,
) -> XmlCase {
    XmlCase {
        name,
        classname,
        assertions: None,
        timestamp: None,
        time: Some(time),
        status,
        system_out,
        system_err,
        extra: seq![],
        properties: seq![],
    }
}

/// Makes a case with `TestCase::new` and its setters, and adds it to a suite
/// with `TestSuite::add_test_case`, which counts it.
#[verifier::external_body]
fn add_case(
    suite: &mut quick_junit::TestSuite,
    name: &str,
    classname: Option<&str>,
    time: (u64, u32),
    status: quick_junit::TestCaseStatus,
    output: (Option<&str>, Option<&str>),
)
    requires
        time.1 < duration::NANOS_PER_SEC,
        suite_of(*old(suite)).tests < usize::MAX,
        suite_of(*old(suite)).failures < usize::MAX,
        suite_of(*old(suite)).errors < usize::MAX,
        suite_of(*old(suite)).skipped < usize::MAX,
    ensures
        suite_of(*final(suite)) == with_case(
            suite_of(*old(suite)),
            simple_case(
                xml_text(name@),
                xml_option(classname.deep_view()),
                (time.0 * duration::NANOS_PER_SEC + time.1) as nat,
                status_of(status),
                xml_option(output.0.deep_view()),
                xml_option(output.1.deep_view()),
            ),
        ),
{
    let mut case = quick_junit::TestCase::new(name, status);
    case.set_time(std::time::Duration::new(time.0, time.1));
    case.classname = classname.map(quick_junit::XmlString::new);
    case.system_out = output.0.map(quick_junit::XmlString::new);
    case.system_err = output.1.map(quick_junit::XmlString::new);
    suite.add_test_case(case);
}

/// Reads the name of a suite.
#[verifier::external_body]
fn suite_name(suite: &quick_junit::TestSuite) -> (r: &str)
    ensures
        r@ == suite_of(*suite).name,
{
    suite.name.as_str()
}

/// The counts of a suite or of a report.
#[derive(Debug)]
pub struct Counts {
    pub tests: usize,
    pub failures: usize,
    pub errors: usize,
    pub skipped: usize,
    pub disabled: Option<usize>,
}

pub struct CountsV {
    pub tests: nat,
    pub failures: nat,
    pub errors: nat,
    pub skipped: nat,
    pub disabled: Option<nat>,
}

impl DeepView for Counts {
    type V = CountsV;

    open spec fn deep_view(&self) -> CountsV {
        CountsV {
            tests: self.tests as nat,
            failures: self.failures as nat,
            errors: self.errors as nat,
            skipped: self.skipped as nat,
            disabled: match self.disabled {
                Some(n) => Some(n as nat),
                None => None,
            },
        }
    }
}

/// The counts that a suite holds.
pub open spec fn counts_in_suite(suite: XmlSuite) -> CountsV {
    CountsV {
        tests: suite.tests,
        failures: suite.failures,
        errors: suite.errors,
        skipped: suite.skipped,
        disabled: suite.disabled,
    }
}

/// Gives a suite another name: a `quick_junit::XmlString` of the text. A plain
/// name is kept as it is.
#[verifier::external_body]
fn rename_suite(suite: &mut quick_junit::TestSuite, name: &str)
    ensures
        suite_of(*final(suite)) == (XmlSuite { name: xml_text(name@), ..suite_of(*old(suite)) }),
        plain(name@) ==> suite_of(*final(suite)).name == name@,
{
    suite.name = name.into();
}

/// Reads the counts of a suite: tests, failures, errors, skipped tests, and
/// disabled tests where they are counted.
#[verifier::external_body]
fn suite_counts(suite: &quick_junit::TestSuite) -> (r: Counts)
    ensures
        r.deep_view() == counts_in_suite(suite_of(*suite)),
{
    Counts {
        tests: suite.tests,
        failures: suite.failures,
        errors: suite.errors,
        skipped: suite.skipped,
        disabled: suite.disabled,
    }
}

// ── reports ─────────────────────────────────────────────────────────────────

/// A report of that name with nothing in it.
pub open spec fn empty_report(name: Seq<char>) -> XmlReport {
    XmlReport {
        name: Some(name),
        uuid: None,
        timestamp: None,
        time: None,
        tests: 0,
        failures: 0,
        errors: 0,
        skipped: 0,
        disabled: None,
        suites: seq![],
    }
}

/// A report with one suite more, and counted accordingly.
pub open spec fn with_suite(report: XmlReport, suite: XmlSuite) -> XmlReport {
    XmlReport {
        tests: report.tests + suite.tests,
        failures: report.failures + suite.failures,
        errors: report.errors + suite.errors,
        skipped: report.skipped + suite.skipped,
        disabled: match suite.disabled {
            Some(d) => Some(
                match report.disabled {
                    Some(n) => n + d,
                    None => d,
                },
            ),
            None => report.disabled,
        },
        suites: report.suites.push(suite),
        ..report
    }
}

/// Whether every count of a report fits in a `usize`.
pub open spec fn counts_fit(report: XmlReport) -> bool {
    &&& report.tests <= usize::MAX
    &&& report.failures <= usize::MAX
    &&& report.errors <= usize::MAX
    &&& report.skipped <= usize::MAX
    &&& report.disabled is Some ==> report.disabled->0 <= usize::MAX
}

/// Makes a report with `Report::new`.
#[verifier::external_body]
fn new_report(name: &str) -> (r: quick_junit::Report)
    ensures
        report_of(r) == empty_report(xml_text(name@)),
{
    quick_junit::Report::new(name)
}

/// Adds a suite to a report with `Report::add_test_suite`, which adds up the
/// counts.
#[verifier::external_body]
fn add_suite(report: &mut quick_junit::Report, suite: quick_junit::TestSuite)
    requires
        counts_fit(with_suite(report_of(*old(report)), suite_of(suite))),
    ensures
        report_of(*final(report)) == with_suite(report_of(*old(report)), suite_of(suite)),
{
    report.add_test_suite(suite);
}

/// What `Report::to_string` writes for a report: XML, or the text of an error.
pub uninterp spec fn xml_of(report: XmlReport) -> Result<Seq<char>, Seq<char>>;

/// Writes a report with `Report::to_string`. The text depends on what the
/// report holds alone; the XML itself is not stated.
#[verifier::external_body]
fn write_report(report: &quick_junit::Report) -> (r: Result<String, String>)
    ensures
        (match r {
            Ok(xml) => xml_of(report_of(*report)) == Ok::<Seq<char>, Seq<char>>(xml@),
            Err(e) => xml_of(report_of(*report)) == Err::<Seq<char>, Seq<char>>(e@),
        }),
{
    report.to_string().map_err(|e| e.to_string())
}

/// What `Report::deserialize_from_str` reads in a text: a report, or the text
/// of an error.
pub uninterp spec fn report_in(xml: Seq<char>) -> Result<XmlReport, Seq<char>>;

/// Reads a report with `Report::deserialize_from_str`. The report depends on
/// the text alone; which one it is is not stated.
#[verifier::external_body]
fn read_report(xml: &str) -> (r: Result<quick_junit::Report, String>)
    ensures
        (match r {
            Ok(report) => report_in(xml@) == Ok::<XmlReport, Seq<char>>(report_of(report)),
            Err(e) => report_in(xml@) == Err::<XmlReport, Seq<char>>(e@),
        }),
{
    quick_junit::Report::deserialize_from_str(xml).map_err(|e| e.to_string())
}

/// Takes the suites out of a report.
#[verifier::external_body]
fn into_suites(report: quick_junit::Report) -> (r: Vec<quick_junit::TestSuite>)
    ensures
        suites_of(r@) == report_of(report).suites,
{
    report.test_suites
}

// ── writing ─────────────────────────────────────────────────────────────────

/// An attempt, as it is written.
pub open spec fn xml_rerun(r: junit::RerunV) -> XmlRerun {
    XmlRerun {
        kind: r.kind,
        timestamp: None,
        time: Some(r.time),
        message: Some(xml_text(r.message)),
        ty: Some(xml_text(r.ty)),
        stack_trace: None,
        system_out: xml_option(r.system_out),
        system_err: xml_option(r.system_err),
        description: None,
    }
}

/// Attempts, as they are written.
pub open spec fn xml_reruns(v: Seq<junit::RerunV>) -> Seq<XmlRerun> {
    v.map_values(|r: junit::RerunV| xml_rerun(r))
}

/// A status, as it is written.
pub open spec fn xml_status(s: junit::CaseStatusV) -> XmlStatus {
    match s {
        junit::CaseStatusV::Success { flaky_runs } => XmlStatus::Success {
            flaky_runs: xml_reruns(flaky_runs),
        },
        junit::CaseStatusV::NonSuccess { kind, message, ty, reruns } => XmlStatus::NonSuccess {
            kind,
            message: Some(xml_text(message)),
            ty: xml_option(ty),
            description: None,
            flaky: false,
            runs: xml_reruns(reruns),
        },
        junit::CaseStatusV::Skipped { reason } => XmlStatus::Skipped {
            message: xml_option(reason),
            ty: None,
            description: None,
        },
    }
}

/// A case, as it is written.
pub open spec fn xml_case(c: junit::CaseV) -> XmlCase {
    simple_case(
        xml_text(c.name),
        xml_option(c.classname),
        c.time,
        xml_status(c.status),
        xml_option(c.system_out),
        xml_option(c.system_err),
    )
}

/// A suite with those cases more.
pub open spec fn with_cases(suite: XmlSuite, cases: Seq<junit::CaseV>) -> XmlSuite
    decreases cases.len(),
{
    if cases.len() == 0 {
        suite
    } else {
        with_case(with_cases(suite, cases.drop_last()), xml_case(cases.last()))
    }
}

/// A suite, as it is written.
pub open spec fn xml_suite(s: junit::SuiteV) -> XmlSuite {
    with_cases(
        XmlSuite {
            timestamp: match s.started_at {
                Some(t) => Some(Instant { secs: t.0, nanos: t.1, offset: 0 }),
                None => None,
            },
            time: s.time,
            properties: s.properties.map_values(
                |p: (Seq<char>, Seq<char>)| (xml_text(p.0), xml_text(p.1)),
            ),
            extra: match s.hostname {
                Some(h) => seq![(xml_text("hostname"@), xml_text(h))],
                None => seq![],
            },
            ..empty_suite(xml_text(s.name))
        },
        s.cases,
    )
}

/// A report with those suites more.
pub open spec fn with_suites(report: XmlReport, suites: Seq<XmlSuite>) -> XmlReport
    decreases suites.len(),
{
    if suites.len() == 0 {
        report
    } else {
        with_suite(with_suites(report, suites.drop_last()), suites.last())
    }
}

/// A report, as it is written.
pub open spec fn xml_report(r: junit::JunitReportV) -> XmlReport {
    with_suites(
        empty_report(xml_text(r.name)),
        r.suites.map_values(|s: junit::SuiteV| xml_suite(s)),
    )
}

/// The number of cases in suites.
pub open spec fn total_cases(suites: Seq<junit::SuiteV>) -> nat
    decreases suites.len(),
{
    if suites.len() == 0 {
        0
    } else {
        total_cases(suites.drop_last()) + suites.last().cases.len()
    }
}

proof fn lemma_counts(suite: XmlSuite, cases: Seq<junit::CaseV>)
    ensures
        with_cases(suite, cases).tests == suite.tests + cases.len(),
        with_cases(suite, cases).failures <= suite.failures + cases.len(),
        with_cases(suite, cases).errors <= suite.errors + cases.len(),
        with_cases(suite, cases).skipped <= suite.skipped + cases.len(),
        with_cases(suite, cases).disabled == suite.disabled,
    decreases cases.len(),
{
    if cases.len() > 0 {
        lemma_counts(suite, cases.drop_last());
    }
}

proof fn lemma_total(name: Seq<char>, suites: Seq<junit::SuiteV>)
    ensures
        ({
            let r = with_suites(
                empty_report(name),
                suites.map_values(|s: junit::SuiteV| xml_suite(s)),
            );
            &&& r.tests == total_cases(suites)
            &&& r.failures <= total_cases(suites)
            &&& r.errors <= total_cases(suites)
            &&& r.skipped <= total_cases(suites)
            &&& r.disabled is None
        }),
    decreases suites.len(),
{
    if suites.len() > 0 {
        lemma_total(name, suites.drop_last());
        let f = |s: junit::SuiteV| xml_suite(s);
        assert(suites.map_values(f).drop_last() =~= suites.drop_last().map_values(f));
        let s = suites.last();
        let base = XmlSuite {
            timestamp: match s.started_at {
                Some(t) => Some(Instant { secs: t.0, nanos: t.1, offset: 0 }),
                None => None,
            },
            time: s.time,
            properties: s.properties.map_values(
                |p: (Seq<char>, Seq<char>)| (xml_text(p.0), xml_text(p.1)),
            ),
            extra: match s.hostname {
                Some(h) => seq![(xml_text("hostname"@), xml_text(h))],
                None => seq![],
            },
            ..empty_suite(xml_text(s.name))
        };
        lemma_counts(base, s.cases);
    }
}

proof fn lemma_total_prefix(suites: Seq<junit::SuiteV>, n: int)
    requires
        0 <= n <= suites.len(),
    ensures
        total_cases(suites.take(n)) <= total_cases(suites),
    decreases suites.len() - n,
{
    if n < suites.len() {
        lemma_total_prefix(suites, n + 1);
        assert(suites.take(n + 1).drop_last() =~= suites.take(n));
    } else {
        assert(suites.take(n) =~= suites);
    }
}

/// A text, borrowed where there is one.
fn borrowed(s: &Option<String>) -> (r: Option<&str>)
    ensures
        r.deep_view() == s.deep_view(),
{
    match s {
        Some(s) => Some(s.as_str()),
        None => None,
    }
}

fn convert_reruns(v: &Vec<Rerun>) -> (r: Vec<quick_junit::TestRerun>)
    ensures
        reruns_of(r@) == xml_reruns(v.deep_view()),
{
    let mut out: Vec<quick_junit::TestRerun> = Vec::new();
    let mut i: usize = 0;
    while i < v.len()
        invariant
            i == out@.len(),
            i <= v@.len(),
            forall|k: int| 0 <= k < i ==> rerun_of(#[trigger] out@[k]) == xml_rerun(
                v@[k].deep_view(),
            ),
        decreases v@.len() - i,
    {
        let time = v[i].time;
        out.push(
            new_rerun(
                v[i].kind,
                time.as_secs(),
                time.subsec_nanos(),
                &v[i].message,
                v[i].ty,
                borrowed(&v[i].system_out),
                borrowed(&v[i].system_err),
            ),
        );
        i += 1;
    }
    assert(reruns_of(out@) =~= xml_reruns(v.deep_view()));
    out
}

fn convert_status(status: &CaseStatus) -> (r: quick_junit::TestCaseStatus)
    ensures
        status_of(r) == xml_status(status.deep_view()),
{
    match status {
        CaseStatus::Success { flaky_runs } => success_status(convert_reruns(flaky_runs)),
        CaseStatus::NonSuccess { kind, message, ty, reruns } => non_success_status(
            *kind,
            message,
            *ty,
            convert_reruns(reruns),
        ),
        CaseStatus::Skipped { reason } => skipped_status(borrowed(reason)),
    }
}

fn convert_suite(suite: &Suite) -> (r: quick_junit::TestSuite)
    ensures
        suite_of(r) == xml_suite(suite.deep_view()),
{
    let ghost view = suite.deep_view();
    let mut r = new_suite(&suite.name);
    if let Some(t) = &suite.started_at {
        let (secs, nanos) = t.parts();
        set_timestamp(&mut r, secs, nanos);
    }
    if let Some(d) = &suite.time {
        set_time(&mut r, d.as_secs(), d.subsec_nanos());
    }
    let ghost timed = suite_of(r);
    let ghost f = |p: (Seq<char>, Seq<char>)| (xml_text(p.0), xml_text(p.1));
    let mut i: usize = 0;
    assert(timed.properties =~= view.properties.take(0).map_values(f));
    while i < suite.properties.len()
        invariant
            i <= suite.properties@.len(),
            view == suite.deep_view(),
            f == (|p: (Seq<char>, Seq<char>)| (xml_text(p.0), xml_text(p.1))),
            suite_of(r) == (XmlSuite {
                properties: view.properties.take(i as int).map_values(f),
                ..timed
            }),
        decreases suite.properties@.len() - i,
    {
        add_property(&mut r, &suite.properties[i].0, &suite.properties[i].1);
        assert(view.properties[i as int] == suite.properties@[i as int].deep_view());
        assert(suite_of(r).properties =~= view.properties.take(i + 1).map_values(f));
        i += 1;
    }
    assert(view.properties.take(i as int) =~= view.properties);
    if let Some(h) = &suite.hostname {
        set_attribute(&mut r, "hostname", h);
    }
    let ghost base = suite_of(r);
    let mut j: usize = 0;
    assert(view.cases.take(0) =~= seq![]);
    while j < suite.cases.len()
        invariant
            j <= suite.cases@.len(),
            view == suite.deep_view(),
            base.tests == 0,
            base.failures == 0,
            base.errors == 0,
            base.skipped == 0,
            suite_of(r) == with_cases(base, view.cases.take(j as int)),
        decreases suite.cases@.len() - j,
    {
        let n: usize = suite.cases.len();
        proof {
            lemma_counts(base, view.cases.take(j as int));
            assert(view.cases.take(j + 1).drop_last() =~= view.cases.take(j as int));
            assert(view.cases.take(j + 1).last() == suite.cases@[j as int].deep_view());
        }
        let case = &suite.cases[j];
        let status = convert_status(&case.status);
        add_case(
            &mut r,
            &case.name,
            borrowed(&case.classname),
            (case.time.as_secs(), case.time.subsec_nanos()),
            status,
            (borrowed(&case.system_out), borrowed(&case.system_err)),
        );
        j += 1;
    }
    assert(view.cases.take(j as int) =~= view.cases);
    r
}

/// A report as XML. The number of its cases fits in a `usize`.
pub fn render(report: &JunitReport) -> (r: Result<String, String>)
    requires
        total_cases(report.deep_view().suites) <= usize::MAX,
    ensures
        match r {
            Ok(xml) => xml_of(xml_report(report.deep_view())) == Ok::<Seq<char>, Seq<char>>(xml@),
            Err(e) => xml_of(xml_report(report.deep_view())) == Err::<Seq<char>, Seq<char>>(e@),
        },
{
    let ghost suites = report.deep_view().suites;
    let ghost f = |s: junit::SuiteV| xml_suite(s);
    let mut r = new_report(&report.name);
    let mut i: usize = 0;
    assert(suites.take(0).map_values(f) =~= seq![]);
    while i < report.suites.len()
        invariant
            i <= report.suites@.len(),
            suites == report.deep_view().suites,
            total_cases(suites) <= usize::MAX,
            f == (|s: junit::SuiteV| xml_suite(s)),
            report_of(r) == with_suites(
                empty_report(xml_text(report.name@)),
                suites.take(i as int).map_values(f),
            ),
        decreases report.suites@.len() - i,
    {
        let suite = convert_suite(&report.suites[i]);
        proof {
            let next = suites.take(i + 1);
            assert(next.map_values(f).drop_last() =~= suites.take(i as int).map_values(f));
            assert(next.last() == report.suites@[i as int].deep_view());
            lemma_total(xml_text(report.name@), next);
            lemma_total_prefix(suites, i + 1);
        }
        add_suite(&mut r, suite);
        i += 1;
    }
    assert(suites.take(i as int) =~= suites);
    write_report(&r)
}

// ── merging ─────────────────────────────────────────────────────────────────

/// What is found of the part of a report that a test program was to write.
#[derive(Debug)]
pub enum Part {
    /// There is no such file.
    Missing,
    /// The file cannot be read, for that reason.
    Unreadable(String),
    /// The file holds that text.
    Text(String),
}

pub enum PartV {
    Missing,
    Unreadable(Seq<char>),
    Text(Seq<char>),
}

impl DeepView for Part {
    type V = PartV;

    open spec fn deep_view(&self) -> PartV {
        match self {
            Part::Missing => PartV::Missing,
            Part::Unreadable(e) => PartV::Unreadable(e@),
            Part::Text(xml) => PartV::Text(xml@),
        }
    }
}

/// The part of a report that a test program was to write: the name of the
/// target, the file, and what is found there.
#[derive(Debug)]
pub struct ExpectedPart {
    pub target: String,
    pub path: String,
    pub part: Part,
}

pub struct ExpectedPartV {
    pub target: Seq<char>,
    pub path: Seq<char>,
    pub part: PartV,
}

impl DeepView for ExpectedPart {
    type V = ExpectedPartV;

    open spec fn deep_view(&self) -> ExpectedPartV {
        ExpectedPartV { target: self.target@, path: self.path@, part: self.part.deep_view() }
    }
}

/// The suite of a test program that left no results: one case, an error.
pub open spec fn missing_suite(target: Seq<char>) -> XmlSuite {
    with_case(
        empty_suite(xml_text(target)),
        simple_case(
            xml_text("did_not_run"@),
            Some(xml_text(target)),
            0,
            XmlStatus::NonSuccess {
                kind: FailureKind::Error,
                message: Some(xml_text("test binary did not produce results"@)),
                ty: Some(xml_text("missing"@)),
                description: None,
                flaky: false,
                runs: seq![],
            },
            None,
            None,
        ),
    )
}

/// The suite of a test program that left no results.
pub fn synthetic_missing_suite(target: &str) -> (r: quick_junit::TestSuite)
    ensures
        suite_of(r) == missing_suite(target@),
        plain(target@) ==> suite_of(r).name == target@,
{
    let mut suite = new_suite(target);
    let runs: Vec<quick_junit::TestRerun> = Vec::new();
    assert(reruns_of(runs@) =~= seq![]);
    let status = non_success_status(
        FailureKind::Error,
        "test binary did not produce results",
        Some("missing"),
        runs,
    );
    add_case(&mut suite, "did_not_run", Some(target), (0, 0), status, (None, None));
    suite
}

/// A suite under the name of its target, but for the suite of the probes,
/// which keeps its own.
pub open spec fn under_target(suite: XmlSuite, target: Seq<char>) -> XmlSuite {
    if suite.name == "preflight"@ {
        suite
    } else {
        XmlSuite { name: xml_text(target), ..suite }
    }
}

/// The suites that a target adds to a report, given those that its test
/// program wrote.
pub open spec fn suites_under(suites: Seq<XmlSuite>, target: Seq<char>) -> Seq<XmlSuite> {
    if suites.len() == 0 {
        seq![missing_suite(target)]
    } else {
        suites.map_values(|s: XmlSuite| under_target(s, target))
    }
}

/// The suites that a target adds to a report, given those that its test
/// program wrote.
pub fn target_suites(target: &str, suites: Vec<quick_junit::TestSuite>) -> (r: Vec<
    quick_junit::TestSuite,
>)
    ensures
        suites_of(r@) == suites_under(suites_of(suites@), target@),
        plain(target@) ==> forall|i: int|
            0 <= i < r@.len() ==> (suite_of(#[trigger] r@[i]).name == target@ || suite_of(
                r@[i],
            ).name == "preflight"@),
{
    let mut left = suites;
    let mut out: Vec<quick_junit::TestSuite> = Vec::new();
    if left.len() == 0 {
        out.push(synthetic_missing_suite(target));
        assert(suites_of(out@) =~= suites_under(suites_of(suites@), target@));
        return out;
    }
    let ghost n = suites@.len();
    let ghost mut done: int = 0;
    while left.len() > 0
        invariant
            0 <= done <= n,
            n == suites@.len(),
            left@ == suites@.skip(done),
            out@.len() == done,
            forall|k: int|
                0 <= k < done ==> suite_of(#[trigger] out@[k]) == under_target(
                    suite_of(suites@[k]),
                    target@,
                ),
            plain(target@) ==> forall|i: int|
                0 <= i < done ==> (suite_of(#[trigger] out@[i]).name == target@ || suite_of(
                    out@[i],
                ).name == "preflight"@),
        decreases left@.len(),
    {
        let mut suite = left.remove(0);
        assert(suite == suites@[done]);
        if !text::same(suite_name(&suite), "preflight") {
            rename_suite(&mut suite, target);
        }
        out.push(suite);
        proof {
            assert(suites@.skip(done).remove(0) =~= suites@.skip(done + 1));
            done = done + 1;
        }
    }
    assert(suites_of(out@) =~= suites_under(suites_of(suites@), target@));
    out
}

/// The suites that a target adds to a report.
pub open spec fn part_suites(p: ExpectedPartV) -> Seq<XmlSuite> {
    match p.part {
        PartV::Text(xml) => match report_in(xml) {
            Ok(report) => suites_under(report.suites, p.target),
            Err(_) => seq![missing_suite(p.target)],
        },
        _ => seq![missing_suite(p.target)],
    }
}

/// What is said of a part that cannot be used.
pub open spec fn part_message(p: ExpectedPartV) -> Option<Seq<char>> {
    match p.part {
        PartV::Missing => None,
        PartV::Unreadable(e) => Some(
            "cargo-rigtest: failed to read JUnit part "@ + p.path + ": "@ + e,
        ),
        PartV::Text(xml) => match report_in(xml) {
            Ok(_) => None,
            Err(e) => Some("cargo-rigtest: failed to parse JUnit part "@ + p.path + ": "@ + e),
        },
    }
}

fn part_failure(what: &str, path: &str, error: &str) -> (s: String)
    ensures
        s@ == what@ + path@ + ": "@ + error@,
{
    let mut s = what.to_owned();
    s.append(path);
    s.append(": ");
    s.append(error);
    s
}

/// The suites that a target adds to a report, and what is said of its part
/// where that cannot be used.
pub fn merge_part(p: &ExpectedPart) -> (r: (Vec<quick_junit::TestSuite>, Option<String>))
    ensures
        suites_of(r.0@) == part_suites(p.deep_view()),
        r.1.deep_view() == part_message(p.deep_view()),
{
    let message = match &p.part {
        Part::Missing => None,
        Part::Unreadable(e) => Some(
            part_failure("cargo-rigtest: failed to read JUnit part ", &p.path, e),
        ),
        Part::Text(xml) => match read_report(xml) {
            Ok(report) => {
                return (target_suites(&p.target, into_suites(report)), None);
            },
            Err(e) => Some(part_failure("cargo-rigtest: failed to parse JUnit part ", &p.path, &e)),
        },
    };
    let mut suites: Vec<quick_junit::TestSuite> = Vec::new();
    suites.push(synthetic_missing_suite(&p.target));
    assert(suites_of(suites@) =~= seq![missing_suite(p.target@)]);
    (suites, message)
}

/// The suites that the targets add to a report, in order.
pub open spec fn all_suites(expected: Seq<ExpectedPartV>) -> Seq<XmlSuite>
    decreases expected.len(),
{
    if expected.len() == 0 {
        seq![]
    } else {
        all_suites(expected.drop_last()) + part_suites(expected.last())
    }
}

/// What is said of the parts that cannot be used, in order.
pub open spec fn all_messages(expected: Seq<ExpectedPartV>) -> Seq<Seq<char>>
    decreases expected.len(),
{
    if expected.len() == 0 {
        seq![]
    } else {
        match part_message(expected.last()) {
            Some(m) => all_messages(expected.drop_last()).push(m),
            None => all_messages(expected.drop_last()),
        }
    }
}

/// The report of those suites.
pub open spec fn merged(suites: Seq<XmlSuite>) -> XmlReport {
    with_suites(empty_report(xml_text("cargo-rigtest"@)), suites)
}

proof fn lemma_counts_grow(report: XmlReport, suites: Seq<XmlSuite>, n: int)
    requires
        0 <= n <= suites.len(),
        counts_fit(with_suites(report, suites)),
    ensures
        counts_fit(with_suites(report, suites.take(n))),
    decreases suites.len() - n,
{
    if n < suites.len() {
        lemma_counts_grow(report, suites, n + 1);
        assert(suites.take(n + 1).drop_last() =~= suites.take(n));
    } else {
        assert(suites.take(n) =~= suites);
    }
}

/// The report of those suites. Its counts fit in a `usize`.
pub fn aggregate_suites(suites: Vec<quick_junit::TestSuite>) -> (r: quick_junit::Report)
    requires
        counts_fit(merged(suites_of(suites@))),
    ensures
        report_of(r) == merged(suites_of(suites@)),
{
    let ghost all = suites_of(suites@);
    let ghost given = suites@;
    let ghost mut done: int = 0;
    let mut left = suites;
    let mut report = new_report("cargo-rigtest");
    assert(all.take(0) =~= seq![]);
    while left.len() > 0
        invariant
            0 <= done <= given.len(),
            all == suites_of(given),
            left@ == given.skip(done),
            counts_fit(merged(all)),
            report_of(report) == merged(all.take(done)),
        decreases left@.len(),
    {
        let suite = left.remove(0);
        proof {
            assert(given.skip(done).remove(0) =~= given.skip(done + 1));
            assert(all.take(done + 1).drop_last() =~= all.take(done));
            assert(all.take(done + 1).last() == suite_of(suite));
            lemma_counts_grow(empty_report(xml_text("cargo-rigtest"@)), all, done + 1);
            done = done + 1;
        }
        add_suite(&mut report, suite);
    }
    assert(all.take(done) =~= all);
    report
}

fn add_counts(a: &Counts, b: &Counts) -> (r: Option<Counts>)
    ensures
        match r {
            Some(c) => c.deep_view() == sum(a.deep_view(), b.deep_view()),
            None => !fit(sum(a.deep_view(), b.deep_view())),
        },
{
    let disabled: Option<usize> = match (a.disabled, b.disabled) {
        (Some(x), Some(y)) => match x.checked_add(y) {
            Some(n) => Some(n),
            None => return None,
        },
        (None, d) => d,
        (d, None) => d,
    };
    let tests: usize = match a.tests.checked_add(b.tests) {
        Some(n) => n,
        None => return None,
    };
    let failures: usize = match a.failures.checked_add(b.failures) {
        Some(n) => n,
        None => return None,
    };
    let errors: usize = match a.errors.checked_add(b.errors) {
        Some(n) => n,
        None => return None,
    };
    let skipped: usize = match a.skipped.checked_add(b.skipped) {
        Some(n) => n,
        None => return None,
    };
    Some(Counts { tests, failures, errors, skipped, disabled })
}

/// The sums of two counts.
pub open spec fn sum(a: CountsV, b: CountsV) -> CountsV {
    CountsV {
        tests: a.tests + b.tests,
        failures: a.failures + b.failures,
        errors: a.errors + b.errors,
        skipped: a.skipped + b.skipped,
        disabled: match b.disabled {
            Some(d) => Some(
                match a.disabled {
                    Some(n) => n + d,
                    None => d,
                },
            ),
            None => a.disabled,
        },
    }
}

/// Whether counts fit in a `usize` each.
pub open spec fn fit(c: CountsV) -> bool {
    &&& c.tests <= usize::MAX
    &&& c.failures <= usize::MAX
    &&& c.errors <= usize::MAX
    &&& c.skipped <= usize::MAX
    &&& c.disabled is Some ==> c.disabled->0 <= usize::MAX
}

/// The counts that a report holds.
pub open spec fn counts_in_report(report: XmlReport) -> CountsV {
    CountsV {
        tests: report.tests,
        failures: report.failures,
        errors: report.errors,
        skipped: report.skipped,
        disabled: report.disabled,
    }
}

/// Whether the counts of the report of those suites fit in a `usize`.
pub fn can_aggregate(suites: &Vec<quick_junit::TestSuite>) -> (r: bool)
    ensures
        r == counts_fit(merged(suites_of(suites@))),
{
    let ghost all = suites_of(suites@);
    let mut total = Counts { tests: 0, failures: 0, errors: 0, skipped: 0, disabled: None };
    let mut i: usize = 0;
    assert(all.take(0) =~= seq![]);
    while i < suites.len()
        invariant
            i <= suites@.len(),
            all == suites_of(suites@),
            total.deep_view() == counts_in_report(merged(all.take(i as int))),
        decreases suites@.len() - i,
    {
        proof {
            assert(all.take(i + 1).drop_last() =~= all.take(i as int));
            assert(all.take(i + 1).last() == suite_of(suites@[i as int]));
        }
        total = match add_counts(&total, &suite_counts(&suites[i])) {
            Some(t) => t,
            None => {
                proof {
                    if counts_fit(merged(all)) {
                        lemma_counts_grow(empty_report(xml_text("cargo-rigtest"@)), all, i + 1);
                    }
                }
                return false;
            },
        };
        i += 1;
    }
    assert(all.take(i as int) =~= all);
    true
}

/// The report of all targets, and what is said of the parts that cannot be
/// used. There is no report where its counts do not fit in a `usize`.
pub fn aggregate(expected: &Vec<ExpectedPart>) -> (r: (Option<quick_junit::Report>, Vec<String>))
    ensures
        match r.0 {
            Some(report) => report_of(report) == merged(all_suites(expected.deep_view())),
            None => !counts_fit(merged(all_suites(expected.deep_view()))),
        },
        r.1.deep_view() == all_messages(expected.deep_view()),
{
    let ghost all = expected.deep_view();
    let mut suites: Vec<quick_junit::TestSuite> = Vec::new();
    let mut messages: Vec<String> = Vec::new();
    let mut i: usize = 0;
    assert(suites_of(suites@) =~= seq![]);
    assert(messages.deep_view() =~= seq![]);
    assert(all.take(0) =~= seq![]);
    while i < expected.len()
        invariant
            i <= expected@.len(),
            all == expected.deep_view(),
            suites_of(suites@) == all_suites(all.take(i as int)),
            messages.deep_view() == all_messages(all.take(i as int)),
        decreases expected@.len() - i,
    {
        proof {
            assert(all.take(i + 1).drop_last() =~= all.take(i as int));
            assert(all.take(i + 1).last() == expected@[i as int].deep_view());
        }
        let ghost was = suites@;
        let ghost said = messages.deep_view();
        let (part, message) = merge_part(&expected[i]);
        let ghost added = part@;
        let mut part = part;
        suites.append(&mut part);
        assert(suites_of(suites@) =~= suites_of(was) + suites_of(added));
        if let Some(m) = message {
            messages.push(m);
            assert(messages.deep_view() =~= said.push(m@));
        }
        i += 1;
    }
    assert(all.take(i as int) =~= all);
    if can_aggregate(&suites) {
        (Some(aggregate_suites(suites)), messages)
    } else {
        (None, messages)
    }
}

/// A report of all targets as XML.
pub fn aggregate_xml(report: &quick_junit::Report) -> (r: Result<String, String>)
    ensures
        match r {
            Ok(xml) => xml_of(report_of(*report)) == Ok::<Seq<char>, Seq<char>>(xml@),
            Err(e) => xml_of(report_of(*report)) == Err::<Seq<char>, Seq<char>>(e@),
        },
{
    write_report(report)
}

// ── laws ────────────────────────────────────────────────────────────────────

/// Every target is in the merged report: it adds a suite at least, and each of
/// its suites has the target's name or is that of the probes.
pub proof fn law_every_target_is_reported(p: ExpectedPartV)
    ensures
        part_suites(p).len() >= 1,
        forall|i: int|
            0 <= i < part_suites(p).len() ==> ((#[trigger] part_suites(p)[i]).name == xml_text(
                p.target,
            ) || part_suites(p)[i].name == "preflight"@),
{
}

/// The suites of all targets stand in the merged report in the order of the
/// targets: those of the first ones come first.
pub proof fn law_targets_keep_their_order(expected: Seq<ExpectedPartV>, n: int)
    requires
        0 <= n <= expected.len(),
    ensures
        merged(all_suites(expected)).suites == all_suites(expected),
        all_suites(expected.take(n)).is_prefix_of(all_suites(expected)),
    decreases expected.len() - n,
{
    lemma_merged_suites(empty_report(xml_text("cargo-rigtest"@)), all_suites(expected));
    assert(seq![] + all_suites(expected) =~= all_suites(expected));
    if n < expected.len() {
        law_targets_keep_their_order(expected, n + 1);
        assert(expected.take(n + 1).drop_last() =~= expected.take(n));
        let a = all_suites(expected.take(n));
        let b = all_suites(expected.take(n + 1));
        assert(b == a + part_suites(expected[n]));
        assert(a =~= all_suites(expected).take(a.len() as int)) by {
            assert(b =~= all_suites(expected).take(b.len() as int));
            assert(a =~= b.take(a.len() as int));
        }
    } else {
        assert(expected.take(n) =~= expected);
        let a = all_suites(expected);
        assert(a =~= a.take(a.len() as int));
    }
}

proof fn lemma_merged_suites(report: XmlReport, suites: Seq<XmlSuite>)
    ensures
        with_suites(report, suites).suites == report.suites + suites,
    decreases suites.len(),
{
    if suites.len() == 0 {
        assert(report.suites + suites =~= report.suites);
    } else {
        lemma_merged_suites(report, suites.drop_last());
        assert(report.suites + suites =~= (report.suites + suites.drop_last()).push(
            suites.last(),
        ));
    }
}

/// A target whose part cannot be used is an error in the merged report.
pub proof fn law_missing_results_are_an_error(p: ExpectedPartV)
    requires
        p.part !is Text || report_in(p.part->Text_0) is Err,
    ensures
        part_suites(p).len() == 1,
        part_suites(p)[0].tests == 1,
        part_suites(p)[0].errors == 1,
        part_suites(p)[0].cases.len() == 1,
{
}

/// A text is written where there is one, and what is written is that text.
pub open spec fn is_written(written: Option<Seq<char>>, text: Option<Seq<char>>) -> bool {
    match text {
        Some(t) => written == Some(xml_text(t)),
        None => written is None,
    }
}

/// A case is written with its own name, class, time and outputs, each in its
/// own place; as a success, a failure or an error, or as skipped, exactly
/// where it is one; and with its message and its type.
pub proof fn law_case_is_written(c: junit::CaseV)
    ensures
        ({
            let x = xml_case(c);
            &&& x.name == xml_text(c.name)
            &&& is_written(x.classname, c.classname)
            &&& x.time == Some(c.time)
            &&& is_written(x.system_out, c.system_out)
            &&& is_written(x.system_err, c.system_err)
            &&& x.status is Success <==> c.status is Success
            &&& x.status is Skipped <==> c.status is Skipped
            &&& c.status matches junit::CaseStatusV::NonSuccess { kind, message, ty, reruns } ==> {
                &&& x.status matches XmlStatus::NonSuccess {
                    kind: k,
                    message: m,
                    ty: t,
                    description,
                    flaky,
                    runs,
                }
                &&& k == kind
                &&& m == Some(xml_text(message))
                &&& is_written(t, ty)
                &&& same_runs(runs, reruns)
            }
            &&& c.status matches junit::CaseStatusV::Success { flaky_runs } ==> {
                &&& x.status matches XmlStatus::Success { flaky_runs: runs }
                &&& same_runs(runs, flaky_runs)
            }
            &&& c.status matches junit::CaseStatusV::Skipped { reason } ==> {
                &&& x.status matches XmlStatus::Skipped { message, ty, description }
                &&& is_written(message, reason)
            }
        }),
{
}

/// Whether attempts are written in order, each with its own kind, time,
/// message, type and outputs.
pub open spec fn same_runs(written: Seq<XmlRerun>, runs: Seq<junit::RerunV>) -> bool {
    &&& written.len() == runs.len()
    &&& forall|i: int|
        0 <= i < runs.len() ==> {
            let x = #[trigger] written[i];
            let r = runs[i];
            &&& x.kind == r.kind
            &&& x.time == Some(r.time)
            &&& x.message == Some(xml_text(r.message))
            &&& x.ty == Some(xml_text(r.ty))
            &&& is_written(x.system_out, r.system_out)
            &&& is_written(x.system_err, r.system_err)
        }
}

/// The number of cases that are reported so.
pub open spec fn number_of(
    cases: Seq<junit::CaseV>,
    so: spec_fn(junit::CaseStatusV) -> bool,
) -> nat {
    cases.filter(|c: junit::CaseV| so(c.status)).len()
}

proof fn lemma_number_of_push(
    cases: Seq<junit::CaseV>,
    c: junit::CaseV,
    so: spec_fn(junit::CaseStatusV) -> bool,
)
    ensures
        number_of(cases.push(c), so) == number_of(cases, so) + if so(c.status) {
            1nat
        } else {
            0
        },
{
    text::lemma_filter_push(cases, c, |c: junit::CaseV| so(c.status));
}

proof fn lemma_suite_counts(suite: XmlSuite, cases: Seq<junit::CaseV>)
    ensures
        ({
            let x = with_cases(suite, cases);
            let failed = |s: junit::CaseStatusV|
                s is NonSuccess && s->NonSuccess_kind == FailureKind::Failure;
            let broken = |s: junit::CaseStatusV|
                s is NonSuccess && s->NonSuccess_kind == FailureKind::Error;
            let skipped = |s: junit::CaseStatusV| s is Skipped;
            &&& x.tests == suite.tests + cases.len()
            &&& x.failures == suite.failures + number_of(cases, failed)
            &&& x.errors == suite.errors + number_of(cases, broken)
            &&& x.skipped == suite.skipped + number_of(cases, skipped)
            &&& x.cases == suite.cases + cases.map_values(|c: junit::CaseV| xml_case(c))
            &&& x.name == suite.name
            &&& x.time == suite.time
            &&& x.timestamp == suite.timestamp
            &&& x.properties == suite.properties
            &&& x.extra == suite.extra
        }),
    decreases cases.len(),
{
    let failed = |s: junit::CaseStatusV|
        s is NonSuccess && s->NonSuccess_kind == FailureKind::Failure;
    let broken = |s: junit::CaseStatusV| s is NonSuccess && s->NonSuccess_kind == FailureKind::Error;
    let skipped = |s: junit::CaseStatusV| s is Skipped;
    if cases.len() == 0 {
        reveal(Seq::filter);
        assert(number_of(cases, failed) == 0);
        assert(number_of(cases, broken) == 0);
        assert(number_of(cases, skipped) == 0);
        assert(suite.cases + cases.map_values(|c: junit::CaseV| xml_case(c)) =~= suite.cases);
    } else {
        let head = cases.drop_last();
        let c = cases.last();
        lemma_suite_counts(suite, head);
        assert(cases =~= head.push(c));
        lemma_number_of_push(head, c, failed);
        lemma_number_of_push(head, c, broken);
        lemma_number_of_push(head, c, skipped);
        assert(with_cases(suite, cases).cases =~= suite.cases + cases.map_values(
            |c: junit::CaseV| xml_case(c),
        ));
    }
}

/// A suite is written with its cases, in order, and counts them: all of them,
/// those that failed, those that are errors, and those that were skipped, each
/// by its own number.
pub proof fn law_suite_counts_its_cases(s: junit::SuiteV)
    ensures
        ({
            let x = xml_suite(s);
            let failed = |s: junit::CaseStatusV|
                s is NonSuccess && s->NonSuccess_kind == FailureKind::Failure;
            let broken = |s: junit::CaseStatusV|
                s is NonSuccess && s->NonSuccess_kind == FailureKind::Error;
            let skipped = |s: junit::CaseStatusV| s is Skipped;
            &&& x.name == xml_text(s.name)
            &&& x.time == s.time
            &&& x.tests == s.cases.len()
            &&& x.failures == number_of(s.cases, failed)
            &&& x.errors == number_of(s.cases, broken)
            &&& x.skipped == number_of(s.cases, skipped)
            &&& x.cases == s.cases.map_values(|c: junit::CaseV| xml_case(c))
            &&& s.started_at matches Some(t) ==> (x.timestamp matches Some(i) && i.secs == t.0
                && i.nanos == t.1 && i.offset == 0)
            &&& s.started_at is None ==> x.timestamp is None
            &&& s.hostname matches Some(h) ==> x.extra == seq![
                (xml_text("hostname"@), xml_text(h)),
            ]
            &&& x.properties.len() == s.properties.len()
            &&& forall|i: int|
                0 <= i < s.properties.len() ==> #[trigger] x.properties[i] == (
                    xml_text(s.properties[i].0),
                    xml_text(s.properties[i].1),
                )
        }),
{
    let empty = XmlSuite {
        timestamp: match s.started_at {
            Some(t) => Some(Instant { secs: t.0, nanos: t.1, offset: 0 }),
            None => None,
        },
        time: s.time,
        properties: s.properties.map_values(
            |p: (Seq<char>, Seq<char>)| (xml_text(p.0), xml_text(p.1)),
        ),
        extra: match s.hostname {
            Some(h) => seq![(xml_text("hostname"@), xml_text(h))],
            None => seq![],
        },
        ..empty_suite(xml_text(s.name))
    };
    lemma_suite_counts(empty, s.cases);
    let mapped = s.cases.map_values(|c: junit::CaseV| xml_case(c));
    assert(empty.cases + mapped =~= mapped);
}

/// The counts of a report are those of its suites together, each by its own
/// number: a report of the suites of two reports counts what both count.
pub proof fn law_report_counts_its_suites(a: Seq<XmlSuite>, b: Seq<XmlSuite>, suite: XmlSuite)
    ensures
        merged(a + b).tests == merged(a).tests + merged(b).tests,
        merged(a + b).failures == merged(a).failures + merged(b).failures,
        merged(a + b).errors == merged(a).errors + merged(b).errors,
        merged(a + b).skipped == merged(a).skipped + merged(b).skipped,
        merged(seq![suite]).tests == suite.tests,
        merged(seq![suite]).failures == suite.failures,
        merged(seq![suite]).errors == suite.errors,
        merged(seq![suite]).skipped == suite.skipped,
    decreases b.len(),
{
    let base = empty_report(xml_text("cargo-rigtest"@));
    let one = seq![suite];
    assert(one.drop_last() =~= seq![]);
    assert(one.last() == suite);
    assert(with_suites(base, one.drop_last()) == base);
    if b.len() == 0 {
        assert(a + b =~= a);
    } else {
        law_report_counts_its_suites(a, b.drop_last(), suite);
        assert((a + b).drop_last() =~= a + b.drop_last());
        assert((a + b).last() == b.last());
    }
}

/// What a test program wrote is taken over into the merged report: as many
/// suites, with the same cases and counts, in order, and under the name of the
/// target but for that of the probes.
pub proof fn law_results_are_taken_over(p: ExpectedPartV, xml: Seq<char>, i: int)
    requires
        p.part == PartV::Text(xml),
        report_in(xml) is Ok,
        0 <= i < report_in(xml)->Ok_0.suites.len(),
    ensures
        ({
            let wrote = report_in(xml)->Ok_0.suites;
            let taken = part_suites(p);
            &&& taken.len() == wrote.len()
            &&& taken[i].cases == wrote[i].cases
            &&& counts_in_suite(taken[i]) == counts_in_suite(wrote[i])
            &&& taken[i].time == wrote[i].time
            &&& taken[i].name == if wrote[i].name == "preflight"@ {
                wrote[i].name
            } else {
                xml_text(p.target)
            }
            &&& part_message(p) is None
        }),
{
}

/// Something is said of the part of a target exactly where there is one that
/// cannot be used, and what is said tells where it lies and what is wrong.
pub proof fn law_unusable_parts_are_told(p: ExpectedPartV)
    ensures
        part_message(p) is Some <==> p.part is Unreadable || (p.part matches PartV::Text(xml)
            && report_in(xml) is Err),
        part_message(p) matches Some(m) ==> text::contains(m, p.path),
        p.part matches PartV::Unreadable(e) ==> text::contains(part_message(p)->0, e),
{
    let none: Seq<char> = seq![];
    let read = "cargo-rigtest: failed to read JUnit part "@;
    let parse = "cargo-rigtest: failed to parse JUnit part "@;
    let w = p.path;
    assert(w.subrange(0, w.len() as int) =~= w);
    assert(text::occurs_at(w, w, 0));
    match p.part {
        PartV::Unreadable(e) => {
            text::lemma_contains_within(read, w, ": "@ + e, w);
            assert(read + w + (": "@ + e) =~= read + w + ": "@ + e);
            assert(e.subrange(0, e.len() as int) =~= e);
            assert(text::occurs_at(e, e, 0));
            text::lemma_contains_within(read + w + ": "@, e, none, e);
            assert(read + w + ": "@ + e + none =~= read + w + ": "@ + e);
        },
        PartV::Text(xml) => {
            if let Err(e) = report_in(xml) {
                text::lemma_contains_within(parse, w, ": "@ + e, w);
                assert(parse + w + (": "@ + e) =~= parse + w + ": "@ + e);
            }
        },
        _ => {},
    }
}

/// What is said of the parts is said of each for itself, and in their order.
pub proof fn law_parts_are_told_one_by_one(
    a: Seq<ExpectedPartV>,
    b: Seq<ExpectedPartV>,
    p: ExpectedPartV,
)
    ensures
        all_messages(a + b) == all_messages(a) + all_messages(b),
        part_message(p) is None ==> all_messages(seq![p]) == Seq::<Seq<char>>::empty(),
        part_message(p) matches Some(m) ==> all_messages(seq![p]) == seq![m],
    decreases b.len(),
{
    let one = seq![p];
    assert(one.drop_last() =~= seq![]);
    assert(one.last() == p);
    assert(all_messages(one.drop_last()) == Seq::<Seq<char>>::empty());
    if let Some(m) = part_message(p) {
        assert(Seq::<Seq<char>>::empty().push(m) =~= seq![m]);
    }
    if b.len() == 0 {
        assert(a + b =~= a);
        assert(all_messages(a) + all_messages(b) =~= all_messages(a));
    } else {
        law_parts_are_told_one_by_one(a, b.drop_last(), p);
        assert((a + b).drop_last() =~= a + b.drop_last());
        assert((a + b).last() == b.last());
        if let Some(m) = part_message(b.last()) {
            let before = all_messages(b.drop_last());
            assert((all_messages(a) + before).push(m) =~= all_messages(a) + before.push(m));
        }
    }
}

proof fn lemma_written_suites(base: XmlReport, suites: Seq<XmlSuite>)
    ensures
        with_suites(base, suites).name == base.name,
        with_suites(base, suites).suites == base.suites + suites,
    decreases suites.len(),
{
    if suites.len() == 0 {
        assert(base.suites + suites =~= base.suites);
    } else {
        lemma_written_suites(base, suites.drop_last());
        assert((base.suites + suites.drop_last()).push(suites.last()) =~= base.suites + suites);
    }
}

/// A report is written under its name, with its suites in their order.
pub proof fn law_report_is_written(r: junit::JunitReportV)
    ensures
        xml_report(r).name == Some(xml_text(r.name)),
        xml_report(r).suites.len() == r.suites.len(),
        forall|i: int|
            0 <= i < r.suites.len() ==> #[trigger] xml_report(r).suites[i] == xml_suite(
                r.suites[i],
            ),
{
    lemma_written_suites(
        empty_report(xml_text(r.name)),
        r.suites.map_values(|s: junit::SuiteV| xml_suite(s)),
    );
}

/// The counts of a written report are those of its suites together: a suite
/// more adds its own counts, each to the count of the same name.
pub proof fn law_written_report_counts(r: junit::JunitReportV, suite: junit::SuiteV)
    ensures
        ({
            let more = xml_report(junit::JunitReportV { suites: r.suites.push(suite), ..r });
            &&& more.tests == xml_report(r).tests + xml_suite(suite).tests
            &&& more.failures == xml_report(r).failures + xml_suite(suite).failures
            &&& more.errors == xml_report(r).errors + xml_suite(suite).errors
            &&& more.skipped == xml_report(r).skipped + xml_suite(suite).skipped
        }),
        r.suites.len() == 0 ==> xml_report(r).tests == 0 && xml_report(r).failures == 0
            && xml_report(r).errors == 0 && xml_report(r).skipped == 0,
{
    let one = |s: junit::SuiteV| xml_suite(s);
    let all = r.suites.push(suite).map_values(one);
    assert(all.drop_last() =~= r.suites.map_values(one));
    assert(all.last() == xml_suite(suite));
}

} // verus!
