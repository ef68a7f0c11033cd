//! The JUnit report of a run: what it says of each test, gathered while the
//! tests run.

use crate::duration::Duration;
use crate::preflight_runner;
use crate::preflight_runner::{ProbeOutcome, ProbeResult};
use crate::reporter::{Outcome, TestRef};
use crate::text;
use vstd::prelude::*;
use vstd::string::*;

verus! {

/// The version that a report names.
pub open spec fn version() -> Seq<char> {
    "0.4.0"@
}

/// The two ways in which a report says that a test did not succeed.
#[derive(Clone, Copy, Debug, PartialEq, Eq, Structural)]
pub enum FailureKind {
    Failure,
    Error,
}

/// How an outcome is reported: as a failure where the test itself failed, as
/// an error where it could not be run to its end.
pub open spec fn kind_of(outcome: Outcome) -> FailureKind {
    match outcome {
        Outcome::Assertion | Outcome::Panic => FailureKind::Failure,
        Outcome::Timeout | Outcome::Crash => FailureKind::Error,
    }
}

/// The type that a report gives an outcome.
pub open spec fn type_of(outcome: Outcome) -> Seq<char> {
    match outcome {
        Outcome::Assertion => "assertion"@,
        Outcome::Panic => "panic"@,
        Outcome::Timeout => "timeout"@,
        Outcome::Crash => "crash"@,
    }
}

/// How an outcome is reported.
pub fn non_success_kind(outcome: Outcome) -> (kind: FailureKind)
    ensures
        kind == kind_of(outcome),
{
    match outcome {
        Outcome::Assertion | Outcome::Panic => FailureKind::Failure,
        Outcome::Timeout | Outcome::Crash => FailureKind::Error,
    }
}

/// The type that a report gives an outcome.
pub fn outcome_type(outcome: Outcome) -> (ty: &'static str)
    ensures
        ty@ == type_of(outcome),
{
    match outcome {
        Outcome::Assertion => "assertion",
        Outcome::Panic => "panic",
        Outcome::Timeout => "timeout",
        Outcome::Crash => "crash",
    }
}

/// A module path with a point for each `::`, from the left.
pub open spec fn dotted(module: Seq<char>) -> Seq<char>
    decreases module.len(),
{
    if module.len() == 0 {
        seq![]
    } else if module.len() >= 2 && module[0] == ':' && module[1] == ':' {
        seq!['.'] + dotted(module.skip(2))
    } else {
        seq![module[0]] + dotted(module.skip(1))
    }
}

/// The class name of the tests of a module: its path with a point for each
/// `::`.
pub fn classname_from_module(module: &str) -> (r: String)
    ensures
        r@ == dotted(module@),
{
    let c = text::chars_of(module);
    let mut out = String::new();
    let mut i: usize = 0;
    assert(module@.skip(0) =~= module@);
    assert(out@ + dotted(module@.skip(0)) =~= dotted(module@));
    while i < c.len()
        invariant
            i <= c@.len(),
            c@ == module@,
            out@ + dotted(module@.skip(i as int)) == dotted(module@),
        decreases c@.len() - i,
    {
        let ghost rest = module@.skip(i as int);
        let ghost was = out@;
        if c.len() - i >= 2 && c[i] == ':' && c[i + 1] == ':' {
            out.push('.');
            assert(rest.skip(2) =~= module@.skip(i + 2));
            assert(out@ + dotted(rest.skip(2)) =~= was + (seq!['.'] + dotted(rest.skip(2))));
            i += 2;
        } else {
            out.push(c[i]);
            assert(rest.skip(1) =~= module@.skip(i + 1));
            assert(out@ + dotted(rest.skip(1)) =~= was + (seq![rest[0]] + dotted(rest.skip(1))));
            i += 1;
        }
    }
    assert(module@.skip(i as int) =~= seq![]);
    assert(out@ + dotted(module@.skip(i as int)) =~= out@);
    out
}

// ── cases ───────────────────────────────────────────────────────────────────

/// The nanoseconds of a span of time, where there is one.
pub open spec fn span(d: Option<Duration>) -> Option<nat> {
    match d {
        Some(d) => Some(d@),
        None => None,
    }
}

/// An attempt that failed before the last one.
#[derive(Debug)]
pub struct Rerun {
    pub kind: FailureKind,
    pub time: Duration,
    pub message: String,
    pub ty: &'static str,
    pub system_out: Option<String>,
    pub system_err: Option<String>,
}

pub struct RerunV {
    pub kind: FailureKind,
    pub time: nat,
    pub message: Seq<char>,
    pub ty: Seq<char>,
    pub system_out: Option<Seq<char>>,
    pub system_err: Option<Seq<char>>,
}

impl DeepView for Rerun {
    type V = RerunV;

    open spec fn deep_view(&self) -> RerunV {
        RerunV {
            kind: self.kind,
            time: self.time@,
            message: self.message@,
            ty: self.ty@,
            system_out: self.system_out.deep_view(),
            system_err: self.system_err.deep_view(),
        }
    }
}

/// How a test ended.
#[derive(Debug)]
pub enum CaseStatus {
    /// It passed, after the attempts that failed.
    Success { flaky_runs: Vec<Rerun> },
    /// It failed, after the attempts that failed before.
    NonSuccess {
        kind: FailureKind,
        message: String,
        ty: Option<&'static str>,
        reruns: Vec<Rerun>,
    },
    /// It was skipped.
    Skipped { reason: Option<String> },
}

pub enum CaseStatusV {
    Success { flaky_runs: Seq<RerunV> },
    NonSuccess {
        kind: FailureKind,
        message: Seq<char>,
        ty: Option<Seq<char>>,
        reruns: Seq<RerunV>,
    },
    Skipped { reason: Option<Seq<char>> },
}

impl DeepView for CaseStatus {
    type V = CaseStatusV;

    open spec fn deep_view(&self) -> CaseStatusV {
        match self {
            CaseStatus::Success { flaky_runs } => CaseStatusV::Success {
                flaky_runs: flaky_runs.deep_view(),
            },
            CaseStatus::NonSuccess { kind, message, ty, reruns } => CaseStatusV::NonSuccess {
                kind: *kind,
                message: message@,
                ty: ty.deep_view(),
                reruns: reruns.deep_view(),
            },
            CaseStatus::Skipped { reason } => CaseStatusV::Skipped { reason: reason.deep_view() },
        }
    }
}

/// What a report says of one test.
#[derive(Debug)]
pub struct Case {
    pub name: String,
    pub classname: Option<String>,
    pub time: Duration,
    pub status: CaseStatus,
    pub system_out: Option<String>,
    pub system_err: Option<String>,
}

pub struct CaseV {
    pub name: Seq<char>,
    pub classname: Option<Seq<char>>,
    pub time: nat,
    pub status: CaseStatusV,
    pub system_out: Option<Seq<char>>,
    pub system_err: Option<Seq<char>>,
}

impl DeepView for Case {
    type V = CaseV;

    open spec fn deep_view(&self) -> CaseV {
        CaseV {
            name: self.name@,
            classname: self.classname.deep_view(),
            time: self.time@,
            status: self.status.deep_view(),
            system_out: self.system_out.deep_view(),
            system_err: self.system_err.deep_view(),
        }
    }
}

/// A text, where it is not empty.
pub open spec fn unless_empty(s: Seq<char>) -> Option<Seq<char>> {
    if s.len() == 0 {
        None
    } else {
        Some(s)
    }
}

fn some_text(s: &str) -> (r: Option<String>)
    ensures
        r.deep_view() == unless_empty(s@),
{
    if s.unicode_len() == 0 {
        None
    } else {
        Some(s.to_owned())
    }
}

/// The attempt that failed with that outcome.
pub open spec fn rerun_of_attempt(
    outcome: Outcome,
    reason: Seq<char>,
    stdout: Seq<char>,
    stderr: Seq<char>,
    duration: nat,
) -> RerunV {
    RerunV {
        kind: kind_of(outcome),
        time: duration,
        message: reason,
        ty: type_of(outcome),
        system_out: unless_empty(stdout),
        system_err: unless_empty(stderr),
    }
}

/// The attempt that failed with that outcome.
pub fn make_rerun(
    outcome: Outcome,
    reason: &str,
    stdout: &str,
    stderr: &str,
    duration: Duration,
) -> (r: Rerun)
    ensures
        r.deep_view() == rerun_of_attempt(outcome, reason@, stdout@, stderr@, duration@),
{
    Rerun {
        kind: non_success_kind(outcome),
        time: duration,
        message: reason.to_owned(),
        ty: outcome_type(outcome),
        system_out: some_text(stdout),
        system_err: some_text(stderr),
    }
}

// ── tests that run ──────────────────────────────────────────────────────────

/// A test that was started and has not ended: what tells it apart, and the
/// attempts that failed so far.
struct Progress {
    module: String,
    name: String,
    reruns: Vec<Rerun>,
}

pub struct ProgressV {
    pub module: Seq<char>,
    pub name: Seq<char>,
    pub reruns: Seq<RerunV>,
}

impl DeepView for Progress {
    type V = ProgressV;

    closed spec fn deep_view(&self) -> ProgressV {
        ProgressV {
            module: self.module@,
            name: self.name@,
            reruns: self.reruns.deep_view(),
        }
    }
}

/// Where the test of that module and name stands among those that run.
pub open spec fn place(running: Seq<ProgressV>, key: (Seq<char>, Seq<char>)) -> Option<int>
    decreases running.len(),
{
    if running.len() == 0 {
        None
    } else if (running.last().module, running.last().name) == key {
        Some(running.len() - 1)
    } else {
        place(running.drop_last(), key)
    }
}

/// The attempts of a test that failed so far, where it runs.
pub open spec fn attempts_of(running: Seq<ProgressV>, key: (Seq<char>, Seq<char>)) -> Option<
    Seq<RerunV>,
> {
    match place(running, key) {
        Some(i) => Some(running[i].reruns),
        None => None,
    }
}

/// The tests that run, without that one.
pub open spec fn without(running: Seq<ProgressV>, key: (Seq<char>, Seq<char>)) -> Seq<ProgressV> {
    match place(running, key) {
        Some(i) => running.remove(i),
        None => running,
    }
}

/// Whether no two of the tests that run have the same module and name.
pub open spec fn told_apart(running: Seq<ProgressV>) -> bool {
    forall|i: int, j: int|
        0 <= i < j < running.len() ==> !((#[trigger] running[i]).module == (
        #[trigger] running[j]).module && running[i].name == running[j].name)
}

proof fn lemma_place(running: Seq<ProgressV>, key: (Seq<char>, Seq<char>))
    ensures
        match place(running, key) {
            Some(i) => 0 <= i < running.len() && (running[i].module, running[i].name) == key,
            None => forall|i: int|
                0 <= i < running.len() ==> ((#[trigger] running[i]).module, running[i].name) != key,
        },
    decreases running.len(),
{
    if running.len() > 0 && (running.last().module, running.last().name) != key {
        lemma_place(running.drop_last(), key);
        assert forall|i: int|
            place(running, key) is None && 0 <= i < running.len() implies ((
        #[trigger] running[i]).module, running[i].name) != key by {
            if i < running.len() - 1 {
                assert(running.drop_last()[i] == running[i]);
            }
        }
    }
}

proof fn lemma_place_is(running: Seq<ProgressV>, key: (Seq<char>, Seq<char>), i: int)
    requires
        told_apart(running),
        0 <= i < running.len(),
        (running[i].module, running[i].name) == key,
    ensures
        place(running, key) == Some(i),
{
    lemma_place(running, key);
    let j = place(running, key)->0;
    if i < j {
        assert(running[i].module == running[j].module);
    } else if j < i {
        assert(running[j].module == running[i].module);
    }
}

proof fn lemma_without(running: Seq<ProgressV>, key: (Seq<char>, Seq<char>))
    requires
        told_apart(running),
    ensures
        told_apart(without(running, key)),
        place(without(running, key), key) is None,
        forall|k: (Seq<char>, Seq<char>)|
            k != key ==> #[trigger] attempts_of(without(running, key), k) == attempts_of(
                running,
                k,
            ),
{
    let rest = without(running, key);
    lemma_place(running, key);
    if let Some(p) = place(running, key) {
        assert forall|a: int| 0 <= a < rest.len() implies #[trigger] rest[a] == running[if a < p {
            a
        } else {
            a + 1
        }] by {}
        lemma_place(rest, key);
        if let Some(q) = place(rest, key) {
            let x = if q < p {
                q
            } else {
                q + 1
            };
            assert(rest[q] == running[x]);
            lemma_place_is(running, key, x);
        }
        assert forall|k: (Seq<char>, Seq<char>)| k != key implies #[trigger] attempts_of(rest, k)
            == attempts_of(running, k) by {
            lemma_place(running, k);
            lemma_place(rest, k);
            if let Some(i) = place(running, k) {
                let y = if i < p {
                    i
                } else {
                    i - 1
                };
                assert(rest[y] == running[i]);
                lemma_place_is(rest, k, y);
            } else if let Some(j) = place(rest, k) {
                let x = if j < p {
                    j
                } else {
                    j + 1
                };
                assert(rest[j] == running[x]);
            }
        }
    }
}

// ── the reporter ────────────────────────────────────────────────────────────

/// A point in time: the seconds since the beginning of 1970 and the
/// nanoseconds in them, between the years 1 and 9999.
#[derive(Clone, Copy, Debug, PartialEq, Eq, Structural)]
pub struct Timestamp {
    secs: i64,
    nanos: u32,
}

/// Whether a point in time lies between the years 1 and 9999.
pub open spec fn in_calendar(secs: int, nanos: int) -> bool {
    -62_135_596_800 <= secs < 253_402_300_800 && 0 <= nanos < 1_000_000_000
}

impl View for Timestamp {
    type V = (int, int);

    /// The seconds and the nanoseconds.
    closed spec fn view(&self) -> (int, int) {
        (self.secs as int, self.nanos as int)
    }
}

impl Timestamp {
    #[verifier::type_invariant]
    closed spec fn well_formed(self) -> bool {
        in_calendar(self.secs as int, self.nanos as int)
    }

    /// The point in time, where it can be written down.
    pub fn new(secs: i64, nanos: u32) -> (r: Option<Timestamp>)
        ensures
            match r {
                Some(t) => in_calendar(secs as int, nanos as int) && t@ == (
                    secs as int,
                    nanos as int,
                ),
                None => !in_calendar(secs as int, nanos as int),
            },
    {
        if -62_135_596_800 <= secs && secs < 253_402_300_800 && nanos < 1_000_000_000 {
            Some(Timestamp { secs, nanos })
        } else {
            None
        }
    }

    /// The seconds and the nanoseconds.
    pub fn parts(&self) -> (r: (i64, u32))
        ensures
            (r.0 as int, r.1 as int) == self@,
            in_calendar(r.0 as int, r.1 as int),
    {
        proof {
            use_type_invariant(self);
        }
        (self.secs, self.nanos)
    }
}

/// The seconds and the nanoseconds of a point in time, where there is one.
pub open spec fn point(t: Option<Timestamp>) -> Option<(int, int)> {
    match t {
        Some(t) => Some(t@),
        None => None,
    }
}

/// What a report is about.
#[derive(Debug)]
pub struct JunitConfig {
    /// The name of the suite: that of the test program.
    pub suite_name: String,
    /// The seed of the run.
    pub seed: u64,
}

/// Gathers what the report of a run says.
pub struct JunitReporter {
    config: JunitConfig,
    started_at: Option<Timestamp>,
    probes: Option<Vec<Case>>,
    running: Vec<Progress>,
    finalized: Vec<Case>,
}

pub struct JunitReporterV {
    pub suite_name: Seq<char>,
    pub seed: u64,
    /// When the suite was started.
    pub started_at: Option<(int, int)>,
    /// The probes that were run, where any were.
    pub probes: Option<Seq<CaseV>>,
    /// The tests that were started and have not ended.
    pub running: Seq<ProgressV>,
    /// The tests that have ended, in that order.
    pub finalized: Seq<CaseV>,
}

impl View for JunitReporter {
    type V = JunitReporterV;

    closed spec fn view(&self) -> JunitReporterV {
        JunitReporterV {
            suite_name: self.config.suite_name@,
            seed: self.config.seed,
            started_at: point(self.started_at),
            probes: self.probes.deep_view(),
            running: self.running.deep_view(),
            finalized: self.finalized.deep_view(),
        }
    }
}

/// What a report says of a probe.
pub open spec fn probe_case(result: preflight_runner::ProbeResultV) -> CaseV {
    CaseV {
        name: result.name,
        classname: Some("preflight"@),
        time: result.elapsed@,
        status: match result.outcome {
            preflight_runner::ProbeOutcomeV::Passed => CaseStatusV::Success { flaky_runs: seq![] },
            preflight_runner::ProbeOutcomeV::Failed(reason) => CaseStatusV::NonSuccess {
                kind: FailureKind::Failure,
                message: reason,
                ty: None,
                reruns: seq![],
            },
        },
        system_out: None,
        system_err: None,
    }
}

impl JunitReporterV {
    /// The class name of a test, where the test runs.
    pub open spec fn classname(self, key: (Seq<char>, Seq<char>)) -> Option<Seq<char>> {
        match place(self.running, key) {
            Some(_) => Some(dotted(key.0)),
            None => None,
        }
    }

    /// The attempts of a test that failed so far.
    pub open spec fn attempts(self, key: (Seq<char>, Seq<char>)) -> Seq<RerunV> {
        match attempts_of(self.running, key) {
            Some(reruns) => reruns,
            None => seq![],
        }
    }

    /// Once the test was started: it runs, with no attempt that failed.
    pub open spec fn started(self, key: (Seq<char>, Seq<char>)) -> JunitReporterV {
        JunitReporterV {
            running: without(self.running, key).push(
                ProgressV { module: key.0, name: key.1, reruns: seq![] },
            ),
            ..self
        }
    }

    /// Once an attempt failed that another one follows: it is noted, where
    /// the test runs.
    pub open spec fn retried(self, key: (Seq<char>, Seq<char>), attempt: RerunV) -> JunitReporterV {
        match place(self.running, key) {
            Some(i) => JunitReporterV {
                running: self.running.update(
                    i,
                    ProgressV {
                        module: key.0,
                        name: key.1,
                        reruns: self.running[i].reruns.push(attempt),
                    },
                ),
                ..self
            },
            None => self,
        }
    }

    /// Once a test ended: it no longer runs, and the report has its case.
    pub open spec fn ended(self, key: (Seq<char>, Seq<char>), case: CaseV) -> JunitReporterV {
        JunitReporterV {
            running: without(self.running, key),
            finalized: self.finalized.push(case),
            ..self
        }
    }

    /// What the report says of a test that passes now: the attempts that
    /// failed make it flaky.
    pub open spec fn pass_case(self, key: (Seq<char>, Seq<char>), duration: nat) -> CaseV {
        CaseV {
            name: key.1,
            classname: self.classname(key),
            time: duration,
            status: CaseStatusV::Success { flaky_runs: self.attempts(key) },
            system_out: None,
            system_err: None,
        }
    }

    /// What the report says of a test that is skipped now.
    pub open spec fn skip_case(
        self,
        key: (Seq<char>, Seq<char>),
        duration: nat,
        reason: Seq<char>,
    ) -> CaseV {
        CaseV {
            name: key.1,
            classname: self.classname(key),
            time: duration,
            status: CaseStatusV::Skipped { reason: unless_empty(reason) },
            system_out: None,
            system_err: None,
        }
    }

    /// What the report says of a test that fails now, with the attempts that
    /// failed before and what the last one printed.
    pub open spec fn fail_case(
        self,
        key: (Seq<char>, Seq<char>),
        duration: nat,
        outcome: Outcome,
        reason: Seq<char>,
        stdout: Seq<char>,
        stderr: Seq<char>,
    ) -> CaseV {
        CaseV {
            name: key.1,
            classname: self.classname(key),
            time: duration,
            status: CaseStatusV::NonSuccess {
                kind: kind_of(outcome),
                message: reason,
                ty: Some(type_of(outcome)),
                reruns: self.attempts(key),
            },
            system_out: unless_empty(stdout),
            system_err: unless_empty(stderr),
        }
    }
}

impl JunitReporter {
    /// A reporter of a suite that starts at that time.
    pub fn new(config: JunitConfig, started_at: Option<Timestamp>) -> (r: JunitReporter)
        ensures
            r@ == (JunitReporterV {
                suite_name: config.suite_name@,
                seed: config.seed,
                started_at: point(started_at),
                probes: None,
                running: seq![],
                finalized: seq![],
            }),
    {
        let r = JunitReporter {
            config,
            started_at,
            probes: None,
            running: Vec::new(),
            finalized: Vec::new(),
        };
        assert(r@.running =~= seq![]);
        assert(r@.finalized =~= seq![]);
        r
    }

    /// Where a test stands among those that run.
    fn find(&self, test: &TestRef) -> (r: Option<usize>)
        ensures
            match r {
                Some(i) => place(self.running.deep_view(), test.key()) == Some(i as int) && i
                    < self.running@.len(),
                None => place(self.running.deep_view(), test.key()) is None,
            },
    {
        let ghost all = self.running.deep_view();
        let mut i: usize = self.running.len();
        assert(all.take(i as int) =~= all);
        while i > 0
            invariant
                i <= self.running@.len(),
                all == self.running.deep_view(),
                place(all, test.key()) == place(all.take(i as int), test.key()),
            decreases i,
        {
            assert(all.take(i as int).drop_last() =~= all.take(i - 1));
            assert(all.take(i as int).last() == self.running@[i - 1].deep_view());
            i -= 1;
            if text::same(&self.running[i].module, test.module) && text::same(
                &self.running[i].name,
                test.name,
            ) {
                return Some(i);
            }
        }
        None
    }

    /// Takes a test out of those that run, and hands out its class name and
    /// the attempts that failed.
    fn take_progress(&mut self, test: &TestRef) -> (r: (Option<String>, Vec<Rerun>))
        ensures
            final(self)@ == (JunitReporterV {
                running: without(old(self)@.running, test.key()),
                ..old(self)@
            }),
            r.0.deep_view() == old(self)@.classname(test.key()),
            r.1.deep_view() == old(self)@.attempts(test.key()),
    {
        match self.find(test) {
            Some(i) => {
                let ghost was = self.running.deep_view();
                let p = self.running.remove(i);
                assert(self.running.deep_view() =~= was.remove(i as int));
                (Some(classname_from_module(test.module)), p.reruns)
            },
            None => {
                let none: Vec<Rerun> = Vec::new();
                assert(none.deep_view() =~= seq![]);
                (None, none)
            },
        }
    }

    fn push_finalized(&mut self, case: Case)
        ensures
            final(self)@ == (JunitReporterV {
                finalized: old(self)@.finalized.push(case.deep_view()),
                ..old(self)@
            }),
    {
        let ghost was = self.finalized.deep_view();
        self.finalized.push(case);
        assert(self.finalized.deep_view() =~= was.push(case.deep_view()));
    }

    /// Notes that a test was started.
    pub fn test_started(&mut self, test: TestRef)
        ensures
            final(self)@ == old(self)@.started(test.key()),
    {
        let _ = self.take_progress(&test);
        let ghost was = self.running.deep_view();
        let reruns: Vec<Rerun> = Vec::new();
        assert(reruns.deep_view() =~= seq![]);
        let p = Progress { module: test.module.to_owned(), name: test.name.to_owned(), reruns };
        self.running.push(p);
        assert(self.running.deep_view() =~= was.push(p.deep_view()));
    }

    /// Notes an attempt that failed and that another one follows.
    pub fn test_retrying(
        &mut self,
        test: TestRef,
        _attempt: u32,
        _max_attempts: u32,
        outcome: Outcome,
        reason: &str,
        stdout: &str,
        stderr: &str,
        duration: Duration,
    )
        ensures
            final(self)@ == old(self)@.retried(
                test.key(),
                rerun_of_attempt(outcome, reason@, stdout@, stderr@, duration@),
            ),
    {
        if let Some(i) = self.find(&test) {
            let ghost was = self.running.deep_view();
            let attempt = make_rerun(outcome, reason, stdout, stderr, duration);
            let mut p = self.running.remove(i);
            let ghost before = p.reruns.deep_view();
            p.reruns.push(attempt);
            assert(p.reruns.deep_view() =~= before.push(attempt.deep_view()));
            let ghost noted = p.deep_view();
            self.running.insert(i, p);
            proof {
                lemma_place(was, test.key());
                assert(self.running.deep_view() =~= was.update(i as int, noted));
            }
        }
    }

    /// Notes that a test passed.
    pub fn test_passed(&mut self, test: TestRef, duration: Duration)
        ensures
            final(self)@ == old(self)@.ended(
                test.key(),
                old(self)@.pass_case(test.key(), duration@),
            ),
    {
        let (classname, flaky_runs) = self.take_progress(&test);
        let case = Case {
            name: test.name.to_owned(),
            classname,
            time: duration,
            status: CaseStatus::Success { flaky_runs },
            system_out: None,
            system_err: None,
        };
        self.push_finalized(case);
    }

    /// Notes that a test was skipped.
    pub fn test_skipped(&mut self, test: TestRef, duration: Duration, reason: &str)
        ensures
            final(self)@ == old(self)@.ended(
                test.key(),
                old(self)@.skip_case(test.key(), duration@, reason@),
            ),
    {
        let (classname, _) = self.take_progress(&test);
        let case = Case {
            name: test.name.to_owned(),
            classname,
            time: duration,
            status: CaseStatus::Skipped { reason: some_text(reason) },
            system_out: None,
            system_err: None,
        };
        self.push_finalized(case);
    }

    /// Notes that a test failed.
    pub fn test_failed(
        &mut self,
        test: TestRef,
        duration: Duration,
        outcome: Outcome,
        reason: &str,
        stdout: &str,
        stderr: &str,
    )
        ensures
            final(self)@ == old(self)@.ended(
                test.key(),
                old(self)@.fail_case(test.key(), duration@, outcome, reason@, stdout@, stderr@),
            ),
    {
        let (classname, reruns) = self.take_progress(&test);
        let case = Case {
            name: test.name.to_owned(),
            classname,
            time: duration,
            status: CaseStatus::NonSuccess {
                kind: non_success_kind(outcome),
                message: reason.to_owned(),
                ty: Some(outcome_type(outcome)),
                reruns,
            },
            system_out: some_text(stdout),
            system_err: some_text(stderr),
        };
        self.push_finalized(case);
    }

    /// Notes what came of the probes.
    pub fn preflight_recorded(&mut self, results: &Vec<ProbeResult>)
        ensures
            final(self)@ == (JunitReporterV {
                probes: Some(
                    results.deep_view().map_values(
                        |r: preflight_runner::ProbeResultV| probe_case(r),
                    ),
                ),
                ..old(self)@
            }),
    {
        let mut cases: Vec<Case> = Vec::new();
        let mut i: usize = 0;
        while i < results.len()
            invariant
                i == cases@.len(),
                i <= results@.len(),
                forall|k: int|
                    0 <= k < i ==> (#[trigger] cases@[k]).deep_view() == probe_case(
                        results@[k].deep_view(),
                    ),
            decreases results@.len() - i,
        {
            let reruns: Vec<Rerun> = Vec::new();
            assert(reruns.deep_view() =~= seq![]);
            let status = match &results[i].outcome {
                ProbeOutcome::Passed => CaseStatus::Success { flaky_runs: reruns },
                ProbeOutcome::Failed(reason) => CaseStatus::NonSuccess {
                    kind: FailureKind::Failure,
                    message: reason.clone(),
                    ty: None,
                    reruns,
                },
            };
            cases.push(
                Case {
                    name: results[i].name.clone(),
                    classname: Some("preflight".to_owned()),
                    time: results[i].elapsed,
                    status,
                    system_out: None,
                    system_err: None,
                },
            );
            i += 1;
        }
        assert(cases.deep_view() =~= results.deep_view().map_values(
            |r: preflight_runner::ProbeResultV| probe_case(r),
        ));
        self.probes = Some(cases);
    }
}

// ── the report ──────────────────────────────────────────────────────────────

/// A suite of a report.
#[derive(Debug)]
pub struct Suite {
    pub name: String,
    pub started_at: Option<Timestamp>,
    pub time: Option<Duration>,
    pub properties: Vec<(String, String)>,
    pub hostname: Option<String>,
    pub cases: Vec<Case>,
}

pub struct SuiteV {
    pub name: Seq<char>,
    pub started_at: Option<(int, int)>,
    pub time: Option<nat>,
    pub properties: Seq<(Seq<char>, Seq<char>)>,
    pub hostname: Option<Seq<char>>,
    pub cases: Seq<CaseV>,
}

impl DeepView for Suite {
    type V = SuiteV;

    open spec fn deep_view(&self) -> SuiteV {
        SuiteV {
            name: self.name@,
            started_at: point(self.started_at),
            time: span(self.time),
            properties: self.properties.deep_view(),
            hostname: self.hostname.deep_view(),
            cases: self.cases.deep_view(),
        }
    }
}

/// A report: its name and its suites.
#[derive(Debug)]
pub struct JunitReport {
    pub name: String,
    pub suites: Vec<Suite>,
}

pub struct JunitReportV {
    pub name: Seq<char>,
    pub suites: Seq<SuiteV>,
}

impl DeepView for JunitReport {
    type V = JunitReportV;

    open spec fn deep_view(&self) -> JunitReportV {
        JunitReportV { name: self.name@, suites: self.suites.deep_view() }
    }
}

/// What a report says of a test that was started and never ended.
pub open spec fn crash_case(test: ProgressV) -> CaseV {
    CaseV {
        name: test.name,
        classname: Some(dotted(test.module)),
        time: 0,
        status: CaseStatusV::NonSuccess {
            kind: FailureKind::Error,
            message: "test did not report a terminal event"@,
            ty: Some("crash"@),
            reruns: seq![],
        },
        system_out: None,
        system_err: None,
    }
}

impl JunitReporterV {
    /// What the report says of the tests: those that have ended, then an error
    /// for each that runs.
    pub open spec fn cases(self) -> Seq<CaseV> {
        self.finalized + self.running.map_values(|t: ProgressV| crash_case(t))
    }

    /// The suite of the tests.
    pub open spec fn test_suite(self, suite_time: nat, hostname: Seq<char>) -> SuiteV {
        SuiteV {
            name: self.suite_name,
            started_at: self.started_at,
            time: Some(suite_time),
            properties: seq![
                ("rigtest.seed"@, text::decimal(self.seed as nat)),
                ("rigtest.version"@, version()),
            ],
            hostname: Some(hostname),
            cases: self.cases(),
        }
    }

    /// The report: the suite of the probes, where any were run, and that of
    /// the tests.
    pub open spec fn report(self, suite_time: nat, hostname: Seq<char>) -> JunitReportV {
        JunitReportV {
            name: self.suite_name,
            suites: match self.probes {
                Some(cases) => seq![
                    SuiteV {
                        name: "preflight"@,
                        started_at: None,
                        time: None,
                        properties: seq![],
                        hostname: None,
                        cases,
                    },
                    self.test_suite(suite_time, hostname),
                ],
                None => seq![self.test_suite(suite_time, hostname)],
            },
        }
    }
}

fn copy_option(s: &Option<String>) -> (r: Option<String>)
    ensures
        r.deep_view() == s.deep_view(),
{
    match s {
        Some(s) => Some(s.clone()),
        None => None,
    }
}

fn copy_reruns(v: &Vec<Rerun>) -> (r: Vec<Rerun>)
    ensures
        r.deep_view() == v.deep_view(),
{
    let mut out: Vec<Rerun> = Vec::new();
    let mut i: usize = 0;
    while i < v.len()
        invariant
            i == out@.len(),
            i <= v@.len(),
            forall|k: int| 0 <= k < i ==> (#[trigger] out@[k]).deep_view() == v@[k].deep_view(),
        decreases v@.len() - i,
    {
        out.push(
            Rerun {
                kind: v[i].kind,
                time: v[i].time,
                message: v[i].message.clone(),
                ty: v[i].ty,
                system_out: copy_option(&v[i].system_out),
                system_err: copy_option(&v[i].system_err),
            },
        );
        i += 1;
    }
    assert(out.deep_view() =~= v.deep_view());
    out
}

fn copy_status(s: &CaseStatus) -> (r: CaseStatus)
    ensures
        r.deep_view() == s.deep_view(),
{
    match s {
        CaseStatus::Success { flaky_runs } => CaseStatus::Success {
            flaky_runs: copy_reruns(flaky_runs),
        },
        CaseStatus::NonSuccess { kind, message, ty, reruns } => CaseStatus::NonSuccess {
            kind: *kind,
            message: message.clone(),
            ty: *ty,
            reruns: copy_reruns(reruns),
        },
        CaseStatus::Skipped { reason } => CaseStatus::Skipped { reason: copy_option(reason) },
    }
}

fn copy_cases(v: &Vec<Case>) -> (r: Vec<Case>)
    ensures
        r.deep_view() == v.deep_view(),
{
    let mut out: Vec<Case> = Vec::new();
    let mut i: usize = 0;
    while i < v.len()
        invariant
            i == out@.len(),
            i <= v@.len(),
            forall|k: int| 0 <= k < i ==> (#[trigger] out@[k]).deep_view() == v@[k].deep_view(),
        decreases v@.len() - i,
    {
        out.push(
            Case {
                name: v[i].name.clone(),
                classname: copy_option(&v[i].classname),
                time: v[i].time,
                status: copy_status(&v[i].status),
                system_out: copy_option(&v[i].system_out),
                system_err: copy_option(&v[i].system_err),
            },
        );
        i += 1;
    }
    assert(out.deep_view() =~= v.deep_view());
    out
}

fn make_crash_case(test: &Progress) -> (r: Case)
    ensures
        r.deep_view() == crash_case(test.deep_view()),
{
    let reruns: Vec<Rerun> = Vec::new();
    assert(reruns.deep_view() =~= seq![]);
    Case {
        name: test.name.clone(),
        classname: Some(classname_from_module(&test.module)),
        time: Duration::from_secs(0),
        status: CaseStatus::NonSuccess {
            kind: FailureKind::Error,
            message: "test did not report a terminal event".to_owned(),
            ty: Some("crash"),
            reruns,
        },
        system_out: None,
        system_err: None,
    }
}

impl JunitReporter {
    fn build_cases(&self) -> (r: Vec<Case>)
        ensures
            r.deep_view() == self@.cases(),
    {
        let mut cases = copy_cases(&self.finalized);
        let ghost done = cases.deep_view();
        let ghost running = self.running.deep_view();
        let mut i: usize = 0;
        assert(cases.deep_view() =~= done + running.take(0).map_values(
            |t: ProgressV| crash_case(t),
        ));
        while i < self.running.len()
            invariant
                i <= self.running@.len(),
                running == self.running.deep_view(),
                cases.deep_view() == done + running.take(i as int).map_values(
                    |t: ProgressV| crash_case(t),
                ),
            decreases self.running@.len() - i,
        {
            let ghost was = cases.deep_view();
            let case = make_crash_case(&self.running[i]);
            cases.push(case);
            assert(running[i as int] == self.running@[i as int].deep_view());
            assert(cases.deep_view() =~= was.push(case.deep_view()));
            assert(cases.deep_view() =~= done + running.take(i + 1).map_values(
                |t: ProgressV| crash_case(t),
            ));
            i += 1;
        }
        assert(running.take(i as int) =~= running);
        cases
    }

    /// The report as it stands, of a suite that took that time on that host.
    pub fn build_report(&self, suite_time: Duration, hostname: &str) -> (r: JunitReport)
        ensures
            r.deep_view() == self@.report(suite_time@, hostname@),
    {
        let mut properties: Vec<(String, String)> = Vec::new();
        properties.push(("rigtest.seed".to_owned(), text::number(self.config.seed as u128)));
        properties.push(("rigtest.version".to_owned(), "0.4.0".to_owned()));
        assert(properties.deep_view() =~= seq![
            ("rigtest.seed"@, text::decimal(self.config.seed as nat)),
            ("rigtest.version"@, version()),
        ]);
        let suite = Suite {
            name: self.config.suite_name.clone(),
            started_at: self.started_at,
            time: Some(suite_time),
            properties,
            hostname: Some(hostname.to_owned()),
            cases: self.build_cases(),
        };
        let mut suites: Vec<Suite> = Vec::new();
        match &self.probes {
            Some(cases) => {
                let none: Vec<(String, String)> = Vec::new();
                assert(none.deep_view() =~= seq![]);
                suites.push(
                    Suite {
                        name: "preflight".to_owned(),
                        started_at: None,
                        time: None,
                        properties: none,
                        hostname: None,
                        cases: copy_cases(cases),
                    },
                );
            },
            None => {},
        }
        suites.push(suite);
        let r = JunitReport { name: self.config.suite_name.clone(), suites };
        assert(r.deep_view().suites =~= self@.report(suite_time@, hostname@).suites);
        r
    }
}

/// What is wrong where a report could not be written to a file.
pub open spec fn write_failure_text(path: Seq<char>, error: Seq<char>) -> Seq<char> {
    "failed to write JUnit XML to "@ + path + ": "@ + error
}

/// What is wrong where a report could not be written to a file.
pub fn write_failure(path: &str, error: &str) -> (s: String)
    ensures
        s@ == write_failure_text(path@, error@),
{
    let mut s = "failed to write JUnit XML to ".to_owned();
    s.append(path);
    s.append(": ");
    s.append(error);
    s
}

// ── laws ────────────────────────────────────────────────────────────────────

/// A reporter in which no two of the tests that run have the same module and
/// name stays so.
pub proof fn law_told_apart(
    r: JunitReporterV,
    key: (Seq<char>, Seq<char>),
    attempt: RerunV,
    case: CaseV,
)
    requires
        told_apart(r.running),
    ensures
        told_apart(r.started(key).running),
        told_apart(r.retried(key, attempt).running),
        told_apart(r.ended(key, case).running),
{
    lemma_without(r.running, key);
    lemma_place(without(r.running, key), key);
    lemma_place(r.running, key);
    let after = r.started(key).running;
    assert forall|i: int, j: int| 0 <= i < j < after.len() implies !((
    #[trigger] after[i]).module == (#[trigger] after[j]).module && after[i].name
        == after[j].name) by {
        if j == after.len() - 1 {
            assert(after[i] == without(r.running, key)[i]);
        }
    }
    if let Some(p) = place(r.running, key) {
        let after = r.retried(key, attempt).running;
        assert forall|i: int, j: int| 0 <= i < j < after.len() implies !((
        #[trigger] after[i]).module == (#[trigger] after[j]).module && after[i].name
            == after[j].name) by {
            assert(after[i].module == r.running[i].module && after[i].name == r.running[i].name);
            assert(after[j].module == r.running[j].module && after[j].name == r.running[j].name);
        }
    }
}

/// A test that was started, failed some attempts and then passes is reported
/// as passed, with the attempts that failed, in order.
pub proof fn law_retried_pass_is_flaky(
    r: JunitReporterV,
    key: (Seq<char>, Seq<char>),
    attempts: Seq<RerunV>,
    duration: nat,
)
    requires
        told_apart(r.running),
    ensures
        after_attempts(r.started(key), key, attempts).pass_case(key, duration).status
            == (CaseStatusV::Success { flaky_runs: attempts }),
        after_attempts(r.started(key), key, attempts).pass_case(key, duration).classname == Some(
            dotted(key.0),
        ),
{
    lemma_attempts_kept(r, key, attempts);
}

/// A test that was started, failed some attempts and then fails for good is
/// reported as failed, with the earlier attempts, in order.
pub proof fn law_retried_failure_keeps_attempts(
    r: JunitReporterV,
    key: (Seq<char>, Seq<char>),
    attempts: Seq<RerunV>,
    duration: nat,
    outcome: Outcome,
    reason: Seq<char>,
    stdout: Seq<char>,
    stderr: Seq<char>,
)
    requires
        told_apart(r.running),
    ensures
        after_attempts(r.started(key), key, attempts).fail_case(
            key,
            duration,
            outcome,
            reason,
            stdout,
            stderr,
        ).status == (CaseStatusV::NonSuccess {
            kind: kind_of(outcome),
            message: reason,
            ty: Some(type_of(outcome)),
            reruns: attempts,
        }),
{
    lemma_attempts_kept(r, key, attempts);
}

/// The reporter once those attempts of a test failed, in order.
pub open spec fn after_attempts(
    r: JunitReporterV,
    key: (Seq<char>, Seq<char>),
    attempts: Seq<RerunV>,
) -> JunitReporterV
    decreases attempts.len(),
{
    if attempts.len() == 0 {
        r
    } else {
        after_attempts(r, key, attempts.drop_last()).retried(key, attempts.last())
    }
}

proof fn lemma_attempts_kept(
    r: JunitReporterV,
    key: (Seq<char>, Seq<char>),
    attempts: Seq<RerunV>,
)
    requires
        told_apart(r.running),
    ensures
        attempts_of(after_attempts(r.started(key), key, attempts).running, key) == Some(attempts),
        told_apart(after_attempts(r.started(key), key, attempts).running),
    decreases attempts.len(),
{
    if attempts.len() == 0 {
        law_told_apart(r, key, arbitrary(), arbitrary());
        assert(attempts =~= seq![]);
    } else {
        lemma_attempts_kept(r, key, attempts.drop_last());
        let before = after_attempts(r.started(key), key, attempts.drop_last());
        let after = before.retried(key, attempts.last());
        law_told_apart(before, key, attempts.last(), arbitrary());
        lemma_place(before.running, key);
        lemma_place_is(after.running, key, place(before.running, key)->0);
        assert(attempts.drop_last().push(attempts.last()) =~= attempts);
    }
}

/// What happens to a test changes nothing of another one, though it has the
/// same name in another module.
pub proof fn law_tests_do_not_mix(
    r: JunitReporterV,
    key: (Seq<char>, Seq<char>),
    other: (Seq<char>, Seq<char>),
    attempt: RerunV,
    case: CaseV,
)
    requires
        told_apart(r.running),
        key != other,
    ensures
        attempts_of(r.started(key).running, other) == attempts_of(r.running, other),
        attempts_of(r.retried(key, attempt).running, other) == attempts_of(r.running, other),
        attempts_of(r.ended(key, case).running, other) == attempts_of(r.running, other),
        r.ended(key, case).finalized.drop_last() == r.finalized,
{
    law_told_apart(r, key, attempt, case);
    lemma_without(r.running, key);
    assert(r.started(key).running.drop_last() =~= without(r.running, key));
    lemma_place(without(r.running, key), other);
    assert(attempts_of(without(r.running, key), other) == attempts_of(r.running, other));
    lemma_place(r.running, key);
    lemma_place(r.running, other);
    assert(attempts_of(r.ended(key, case).running, other) == attempts_of(r.running, other));
    if let Some(p) = place(r.running, key) {
        let after = r.retried(key, attempt).running;
        lemma_place(after, other);
        if let Some(i) = place(r.running, other) {
            lemma_place_is(after, other, i);
        } else if let Some(j) = place(after, other) {
            assert(r.running[j].module == after[j].module && r.running[j].name == after[j].name);
        }
    }
    assert(r.ended(key, case).finalized.drop_last() =~= r.finalized);
}

/// Every test that was started is in the report: a test that ended as its own
/// case, and one that never did as an error.
pub proof fn law_no_test_is_lost(r: JunitReporterV, suite_time: nat, hostname: Seq<char>)
    ensures
        r.report(suite_time, hostname).suites.last().cases.len() == r.finalized.len()
            + r.running.len(),
        forall|i: int|
            0 <= i < r.finalized.len() ==> #[trigger] r.report(
                suite_time,
                hostname,
            ).suites.last().cases[i] == r.finalized[i],
        forall|i: int|
            0 <= i < r.running.len() ==> r.report(suite_time, hostname).suites.last().cases[(
            r.finalized.len() + i)] == crash_case(#[trigger] r.running[i]),
{
}

/// Whether a text is reported: as it is, and not at all where it is empty.
pub open spec fn reported(shown: Option<Seq<char>>, text: Seq<char>) -> bool {
    if text.len() == 0 {
        shown is None
    } else {
        shown == Some(text)
    }
}

/// Whether a report says of a case, by kind and type, that it had that
/// outcome: a test that returned an error or panicked failed, and one that was
/// stopped or did not come to its end is an error.
pub open spec fn tells(kind: FailureKind, ty: Seq<char>, outcome: Outcome) -> bool {
    &&& kind == FailureKind::Failure <==> outcome == Outcome::Assertion || outcome
        == Outcome::Panic
    &&& ty == "assertion"@ <==> outcome == Outcome::Assertion
    &&& ty == "panic"@ <==> outcome == Outcome::Panic
    &&& ty == "timeout"@ <==> outcome == Outcome::Timeout
    &&& ty == "crash"@ <==> outcome == Outcome::Crash
}

proof fn lemma_tells(outcome: Outcome)
    ensures
        tells(kind_of(outcome), type_of(outcome), outcome),
{
    reveal_strlit("assertion");
    reveal_strlit("panic");
    reveal_strlit("timeout");
    reveal_strlit("crash");
    assert("assertion"@.len() == 9 && "timeout"@.len() == 7);
    assert("panic"@[0] == 'p' && "crash"@[0] == 'c');
}

/// Of a test that failed, the report has a case behind those of the tests that
/// ended before: under the test's name and with its time, with the reason as
/// its message, with the standard output that was handed over as its standard
/// output and the standard error as its standard error, each unless it is
/// empty. What the report said before stays.
pub proof fn law_failed_test_is_reported(
    before: JunitReporterV,
    after: JunitReporterV,
    key: (Seq<char>, Seq<char>),
    duration: nat,
    outcome: Outcome,
    reason: Seq<char>,
    stdout: Seq<char>,
    stderr: Seq<char>,
    suite_time: nat,
    hostname: Seq<char>,
)
    requires
        after == before.ended(
            key,
            before.fail_case(key, duration, outcome, reason, stdout, stderr),
        ),
    ensures
        ({
            let was = before.report(suite_time, hostname).suites.last().cases;
            let cases = after.report(suite_time, hostname).suites.last().cases;
            let n = before.finalized.len() as int;
            &&& n < cases.len()
            &&& cases.take(n) == was.take(n)
            &&& cases[n].name == key.1
            &&& cases[n].time == duration
            &&& reported(cases[n].system_out, stdout)
            &&& reported(cases[n].system_err, stderr)
            &&& cases[n].status matches CaseStatusV::NonSuccess { kind, message, ty, reruns }
            &&& message == reason
            &&& ty matches Some(ty)
            &&& tells(kind, ty, outcome)
        }),
{
    lemma_tells(outcome);
    let n = before.finalized.len() as int;
    assert(after.report(suite_time, hostname).suites.last().cases.take(n) =~= before.report(
        suite_time,
        hostname,
    ).suites.last().cases.take(n));
}

/// Of a test that passed, the report has a case behind those of the tests that
/// ended before: under the test's name and with its time, as a success, and
/// with nothing that the test wrote.
pub proof fn law_passed_test_is_reported(
    before: JunitReporterV,
    after: JunitReporterV,
    key: (Seq<char>, Seq<char>),
    duration: nat,
    suite_time: nat,
    hostname: Seq<char>,
)
    requires
        after == before.ended(key, before.pass_case(key, duration)),
    ensures
        ({
            let was = before.report(suite_time, hostname).suites.last().cases;
            let cases = after.report(suite_time, hostname).suites.last().cases;
            let n = before.finalized.len() as int;
            &&& n < cases.len()
            &&& cases.take(n) == was.take(n)
            &&& cases[n].name == key.1
            &&& cases[n].time == duration
            &&& cases[n].system_out is None
            &&& cases[n].system_err is None
            &&& cases[n].status is Success
        }),
{
    let n = before.finalized.len() as int;
    assert(after.report(suite_time, hostname).suites.last().cases.take(n) =~= before.report(
        suite_time,
        hostname,
    ).suites.last().cases.take(n));
}

/// Of a test that was skipped, the report has a case behind those of the tests
/// that ended before: under the test's name and with its time, as one that was
/// skipped, with the reason unless it is empty.
pub proof fn law_skipped_test_is_reported(
    before: JunitReporterV,
    after: JunitReporterV,
    key: (Seq<char>, Seq<char>),
    duration: nat,
    reason: Seq<char>,
    suite_time: nat,
    hostname: Seq<char>,
)
    requires
        after == before.ended(key, before.skip_case(key, duration, reason)),
    ensures
        ({
            let was = before.report(suite_time, hostname).suites.last().cases;
            let cases = after.report(suite_time, hostname).suites.last().cases;
            let n = before.finalized.len() as int;
            &&& n < cases.len()
            &&& cases.take(n) == was.take(n)
            &&& cases[n].name == key.1
            &&& cases[n].time == duration
            &&& cases[n].system_out is None
            &&& cases[n].system_err is None
            &&& cases[n].status matches CaseStatusV::Skipped { reason: shown }
            &&& reported(shown, reason)
        }),
{
    let n = before.finalized.len() as int;
    assert(after.report(suite_time, hostname).suites.last().cases.take(n) =~= before.report(
        suite_time,
        hostname,
    ).suites.last().cases.take(n));
}

/// An attempt that failed and that another one follows, as it is handed over.
pub struct Attempt {
    pub outcome: Outcome,
    pub reason: Seq<char>,
    pub stdout: Seq<char>,
    pub stderr: Seq<char>,
    pub duration: nat,
}

/// The reporter once those attempts of a test were handed over, in order.
pub open spec fn after_tries(
    r: JunitReporterV,
    key: (Seq<char>, Seq<char>),
    tries: Seq<Attempt>,
) -> JunitReporterV
    decreases tries.len(),
{
    if tries.len() == 0 {
        r
    } else {
        let a = tries.last();
        after_tries(r, key, tries.drop_last()).retried(
            key,
            rerun_of_attempt(a.outcome, a.reason, a.stdout, a.stderr, a.duration),
        )
    }
}

/// Whether the attempts that a report has are those that were handed over, in
/// order, each with its own outcome, message, time and outputs.
pub open spec fn same_attempts(shown: Seq<RerunV>, tries: Seq<Attempt>) -> bool {
    &&& shown.len() == tries.len()
    &&& forall|i: int|
        0 <= i < tries.len() ==> {
            let a = tries[i];
            let r = #[trigger] shown[i];
            &&& tells(r.kind, r.ty, a.outcome)
            &&& r.message == a.reason
            &&& r.time == a.duration
            &&& reported(r.system_out, a.stdout)
            &&& reported(r.system_err, a.stderr)
        }
}

proof fn lemma_tries(r: JunitReporterV, key: (Seq<char>, Seq<char>), tries: Seq<Attempt>)
    requires
        told_apart(r.running),
    ensures
        told_apart(after_tries(r.started(key), key, tries).running),
        attempts_of(after_tries(r.started(key), key, tries).running, key) matches Some(shown)
            && same_attempts(shown, tries),
    decreases tries.len(),
{
    if tries.len() == 0 {
        law_told_apart(r, key, arbitrary(), arbitrary());
        lemma_attempts_kept(r, key, seq![]);
    } else {
        let a = tries.last();
        let attempt = rerun_of_attempt(a.outcome, a.reason, a.stdout, a.stderr, a.duration);
        lemma_tries(r, key, tries.drop_last());
        let before = after_tries(r.started(key), key, tries.drop_last());
        let after = before.retried(key, attempt);
        law_told_apart(before, key, attempt, arbitrary());
        lemma_place(before.running, key);
        lemma_place_is(after.running, key, place(before.running, key)->0);
        let shown = attempts_of(before.running, key)->0.push(attempt);
        lemma_tells(a.outcome);
        assert forall|i: int| 0 <= i < tries.len() implies ({
            let a = tries[i];
            let r = #[trigger] shown[i];
            &&& tells(r.kind, r.ty, a.outcome)
            &&& r.message == a.reason
            &&& r.time == a.duration
            &&& reported(r.system_out, a.stdout)
            &&& reported(r.system_err, a.stderr)
        }) by {
            if i < tries.len() - 1 {
                assert(tries.drop_last()[i] == tries[i]);
                assert(attempts_of(before.running, key)->0[i] == shown[i]);
            }
        }
    }
}

/// The attempts of a test that failed before its last one are in its case, in
/// order and each with what it came to and wrote: as those of a flaky test
/// where the test then passes, and as earlier ones where it then fails. The
/// class of the case is the test's module.
pub proof fn law_attempts_are_reported(
    r: JunitReporterV,
    key: (Seq<char>, Seq<char>),
    tries: Seq<Attempt>,
    duration: nat,
    last: Attempt,
)
    requires
        told_apart(r.running),
    ensures
        ({
            let now = after_tries(r.started(key), key, tries);
            let passed = now.ended(key, now.pass_case(key, duration)).finalized.last();
            let failed = now.ended(
                key,
                now.fail_case(key, duration, last.outcome, last.reason, last.stdout, last.stderr),
            ).finalized.last();
            &&& passed.status matches CaseStatusV::Success { flaky_runs } && same_attempts(
                flaky_runs,
                tries,
            )
            &&& failed.status matches CaseStatusV::NonSuccess { kind, message, ty, reruns }
                && same_attempts(reruns, tries)
            &&& passed.classname == Some(dotted(key.0))
            &&& failed.classname == Some(dotted(key.0))
        }),
{
    lemma_tries(r, key, tries);
}

/// The class of a test is its module with a point between each two parts of
/// the path.
pub proof fn law_class_follows_the_module(module: Seq<char>, part: Seq<char>)
    requires
        module.len() > 0 ==> module.last() != ':',
        !part.contains(':'),
    ensures
        dotted(part) == part,
        dotted(module + seq![':', ':'] + part) == dotted(module) + seq!['.'] + part,
    decreases module.len(),
{
    let s = module + seq![':', ':'] + part;
    lemma_no_colon(part);
    if module.len() == 0 {
        assert(s =~= seq![':', ':'] + part);
        assert(s.skip(2) =~= part);
        assert(dotted(module) =~= seq![]);
        assert(dotted(s) =~= dotted(module) + seq!['.'] + part);
    } else if module.len() >= 2 && module[0] == ':' && module[1] == ':' {
        assert(module.len() > 2) by {
            if module.len() == 2 {
                assert(module.last() == module[1]);
            }
        }
        assert(module.skip(2).last() == module.last());
        law_class_follows_the_module(module.skip(2), part);
        assert(s.skip(2) =~= module.skip(2) + seq![':', ':'] + part);
        assert(s[0] == ':' && s[1] == ':');
        assert(dotted(s) =~= dotted(module) + seq!['.'] + part);
    } else {
        if module.len() > 1 {
            assert(module.skip(1).last() == module.last());
            assert(s[1] == module[1]);
        } else {
            assert(module.last() == module[0]);
        }
        law_class_follows_the_module(module.skip(1), part);
        assert(s.skip(1) =~= module.skip(1) + seq![':', ':'] + part);
        assert(s[0] == module[0]);
        assert(dotted(s) =~= dotted(module) + seq!['.'] + part);
    }
}

proof fn lemma_no_colon(part: Seq<char>)
    requires
        !part.contains(':'),
    ensures
        dotted(part) == part,
    decreases part.len(),
{
    if part.len() > 0 {
        assert(part.contains(part[0]));
        assert(!part.skip(1).contains(':')) by {
            if part.skip(1).contains(':') {
                let i = part.skip(1).index_of(':');
                assert(part[i + 1] == ':');
            }
        }
        lemma_no_colon(part.skip(1));
        assert(seq![part[0]] + part.skip(1) =~= part);
    }
    assert(dotted(part) =~= part);
}

/// The suite of the tests is the last one of a report, under the name of the
/// program, with the time and the host that are given, and tells the seed of
/// the run; the suite of the probes stands before it exactly where probes were
/// run, with what came of them.
pub proof fn law_suites_of_a_report(r: JunitReporterV, suite_time: nat, hostname: Seq<char>)
    ensures
        ({
            let report = r.report(suite_time, hostname);
            let tests = report.suites.last();
            &&& report.name == r.suite_name
            &&& tests.name == r.suite_name
            &&& tests.time == Some(suite_time)
            &&& tests.hostname == Some(hostname)
            &&& tests.started_at == r.started_at
            &&& exists|i: int|
                0 <= i < tests.properties.len() && (#[trigger] tests.properties[i]).0
                    == "rigtest.seed"@ && text::decimal_value(tests.properties[i].1) == r.seed
            &&& r.probes is None ==> report.suites.len() == 1
            &&& r.probes matches Some(cases) ==> report.suites.len() == 2
                && report.suites[0].name == "preflight"@ && report.suites[0].cases == cases
        }),
{
    text::lemma_decimal(r.seed as nat);
    let tests = r.report(suite_time, hostname).suites.last();
    assert(tests.properties[0].0 == "rigtest.seed"@);
}

/// A probe is reported under its name and with its time, as a success exactly
/// where it passed, and as a failure with what was wrong where it did not.
pub proof fn law_probes_are_reported(result: preflight_runner::ProbeResultV)
    ensures
        ({
            let case = probe_case(result);
            &&& case.name == result.name
            &&& case.time == result.elapsed@
            &&& case.status is Success <==> result.outcome is Passed
            &&& result.outcome matches preflight_runner::ProbeOutcomeV::Failed(reason) ==> {
                &&& case.status matches CaseStatusV::NonSuccess { kind, message, ty, reruns }
                &&& kind == FailureKind::Failure
                &&& message == reason
                &&& reruns.len() == 0
            }
        }),
{
}

/// A test that was started and never ended is reported under its name and the
/// class of its module, as an error.
pub proof fn law_unended_test_is_an_error(
    r: JunitReporterV,
    key: (Seq<char>, Seq<char>),
    suite_time: nat,
    hostname: Seq<char>,
)
    ensures
        ({
            let case = r.started(key).report(suite_time, hostname).suites.last().cases.last();
            &&& case.name == key.1
            &&& case.classname == Some(dotted(key.0))
            &&& case.time == 0
            &&& case.status matches CaseStatusV::NonSuccess { kind, message, ty, reruns }
            &&& kind == FailureKind::Error
            &&& ty == Some("crash"@)
        }),
{
}

/// A test that ended no longer runs, so that it is not reported as one that
/// did not end; where it is started again, the attempts of its earlier run are
/// not counted to it.
pub proof fn law_ended_test_does_not_run(
    r: JunitReporterV,
    key: (Seq<char>, Seq<char>),
    case: CaseV,
    i: int,
)
    requires
        told_apart(r.running),
    ensures
        0 <= i < r.ended(key, case).running.len() ==> (
            r.ended(key, case).running[i].module,
            r.ended(key, case).running[i].name,
        ) != key,
        attempts_of(r.ended(key, case).running, key) is None,
        attempts_of(r.started(key).running, key) == Some(Seq::<RerunV>::empty()),
        r.ended(key, case).running.len() == r.running.len() - if attempts_of(
            r.running,
            key,
        ) is Some {
            1int
        } else {
            0
        },
{
    lemma_without(r.running, key);
    lemma_place(r.running, key);
    lemma_place(r.ended(key, case).running, key);
    lemma_attempts_kept(r, key, seq![]);
}

/// The tests' suite reports what ended, in that order, and then every test
/// that runs, once: as an error without attempts and without output.
pub proof fn law_tests_that_run_are_reported(
    r: JunitReporterV,
    suite_time: nat,
    hostname: Seq<char>,
)
    ensures
        ({
            let cases = r.report(suite_time, hostname).suites.last().cases;
            &&& cases.len() == r.finalized.len() + r.running.len()
            &&& forall|i: int|
                0 <= i < r.finalized.len() ==> #[trigger] cases[i] == r.finalized[i]
            &&& forall|i: int|
                r.finalized.len() <= i < cases.len() ==> {
                    let test = r.running[i - r.finalized.len()];
                    let case = #[trigger] cases[i];
                    &&& case.name == test.name
                    &&& case.classname == Some(dotted(test.module))
                    &&& case.system_out is None
                    &&& case.system_err is None
                    &&& case.status matches CaseStatusV::NonSuccess { kind, message, ty, reruns }
                    &&& kind == FailureKind::Error
                    &&& ty == Some("crash"@)
                    &&& message.len() > 0
                    &&& reruns.len() == 0
                }
        }),
{
    reveal_strlit("test did not report a terminal event");
}

/// A retry changes nothing but the attempts of the test that is retried, and
/// that of a test that does not run changes nothing at all.
pub proof fn law_retry_is_of_one_test(
    r: JunitReporterV,
    key: (Seq<char>, Seq<char>),
    attempt: RerunV,
)
    ensures
        r.retried(key, attempt).finalized == r.finalized,
        r.retried(key, attempt).probes == r.probes,
        r.retried(key, attempt).running.len() == r.running.len(),
        forall|i: int|
            0 <= i < r.running.len() && (r.running[i].module, r.running[i].name) != key
                ==> #[trigger] r.retried(key, attempt).running[i] == r.running[i],
        (forall|i: int|
            0 <= i < r.running.len() ==> ((#[trigger] r.running[i]).module, r.running[i].name)
                != key) ==> r.retried(key, attempt) == r,
{
    lemma_place_is_of_the_key(r.running, key);
}

proof fn lemma_place_is_of_the_key(running: Seq<ProgressV>, key: (Seq<char>, Seq<char>))
    ensures
        place(running, key) matches Some(i) ==> 0 <= i < running.len() && (
            running[i].module,
            running[i].name,
        ) == key,
    decreases running.len(),
{
    if running.len() > 0 {
        lemma_place_is_of_the_key(running.drop_last(), key);
    }
}

/// What is said where a report could not be written says where, and then why.
pub proof fn law_write_failure_says_where(path: Seq<char>, error: Seq<char>)
    ensures
        text::contains(write_failure_text(path, error), path + ": "@ + error),
{
    let head = "failed to write JUnit XML to "@;
    assert(write_failure_text(path, error) =~= head + (path + ": "@ + error));
    text::lemma_stands(head, path + ": "@ + error, seq![]);
}

} // verus!
