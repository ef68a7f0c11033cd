//! Whether a failed attempt of a test is followed by another, and the attempts
//! of one test up to its outcome.

use crate::protocol;
use crate::protocol::SubprocessOutcome;
use crate::registry::TestCase;
use crate::reporter::Outcome;
use crate::schedule::PlannedCase;
use crate::duration;
use crate::text;
use vstd::prelude::*;
use vstd::string::*;

verus! {

/// What came of one attempt.
#[derive(Debug)]
pub enum AttemptPlan {
    Passed,
    Skipped { reason: String },
    Failed {
        kind: Outcome,
        reason: String,
        stdout: String,
        stderr: String,
        /// Whether another attempt may follow, as long as there are any left.
        retryable: bool,
    },
}

pub enum AttemptPlanV {
    Passed,
    Skipped { reason: Seq<char> },
    Failed {
        kind: Outcome,
        reason: Seq<char>,
        stdout: Seq<char>,
        stderr: Seq<char>,
        retryable: bool,
    },
}

impl View for AttemptPlan {
    type V = AttemptPlanV;

    open spec fn view(&self) -> AttemptPlanV {
        match self {
            AttemptPlan::Passed => AttemptPlanV::Passed,
            AttemptPlan::Skipped { reason } => AttemptPlanV::Skipped { reason: reason@ },
            AttemptPlan::Failed { kind, reason, stdout, stderr, retryable } =>
                AttemptPlanV::Failed {
                kind: *kind,
                reason: reason@,
                stdout: stdout@,
                stderr: stderr@,
                retryable: *retryable,
            },
        }
    }
}

/// How a test failed that wrote that to its standard error.
pub open spec fn failure_kind(stderr: Seq<char>) -> Outcome {
    if text::contains(stderr, "panicked at"@) {
        Outcome::Panic
    } else {
        Outcome::Assertion
    }
}

/// How a test failed that wrote that to its standard error.
pub fn classify_failed(stderr: &str) -> (r: Outcome)
    ensures
        r == failure_kind(stderr@),
{
    if text::has(stderr, "panicked at") {
        Outcome::Panic
    } else {
        Outcome::Assertion
    }
}

/// What a test process came to, or why it could not be run.
pub open spec fn raw_view(raw: Result<SubprocessOutcome, String>) -> Result<
    protocol::SubprocessOutcomeV,
    Seq<char>,
> {
    match raw {
        Ok(outcome) => Ok(outcome@),
        Err(e) => Err(e@),
    }
}

/// How a test failed, given what its process tells and what is there of its
/// standard error: a panic that stands there is one, though the process ended
/// as after an error.
pub open spec fn told_kind(kind: Outcome, stderr: Seq<char>) -> Outcome {
    if kind is Assertion {
        failure_kind(stderr)
    } else {
        kind
    }
}

/// What came of an attempt, given what the process came to and whether the
/// test declares an error pattern. With a pattern, only an error that the
/// pattern accepts is retried: no panic, no crash, no timeout and no failure to
/// run.
pub open spec fn plan_of(
    raw: Result<protocol::SubprocessOutcomeV, Seq<char>>,
    matcher: bool,
) -> AttemptPlanV {
    match raw {
        Ok(protocol::SubprocessOutcomeV::Passed) => AttemptPlanV::Passed,
        Ok(protocol::SubprocessOutcomeV::Skipped(reason)) => AttemptPlanV::Skipped { reason },
        Ok(
            protocol::SubprocessOutcomeV::Failed { reason, stdout, stderr, kind, retry_eligible },
        ) => AttemptPlanV::Failed {
            kind: told_kind(kind, stderr),
            reason,
            stdout,
            stderr,
            retryable: retry_eligible && (!matcher || told_kind(kind, stderr) is Assertion),
        },
        Ok(protocol::SubprocessOutcomeV::TimedOut(d)) => AttemptPlanV::Failed {
            kind: Outcome::Timeout,
            reason: "timed out after "@ + duration::seconds_text(d@, 1) + "s"@,
            stdout: seq![],
            stderr: seq![],
            retryable: !matcher,
        },
        Err(e) => AttemptPlanV::Failed {
            kind: Outcome::Crash,
            reason: e,
            stdout: seq![],
            stderr: seq![],
            retryable: !matcher,
        },
    }
}

/// What came of an attempt of `tc`.
pub fn plan(raw: Result<SubprocessOutcome, String>, tc: &TestCase) -> (r: AttemptPlan)
    ensures
        r@ == plan_of(raw_view(raw), tc.retry_on_error_set),
{
    let matcher = tc.retry_on_error_set;
    match raw {
        Ok(SubprocessOutcome::Passed) => AttemptPlan::Passed,
        Ok(SubprocessOutcome::Skipped(reason)) => AttemptPlan::Skipped { reason },
        Ok(SubprocessOutcome::Failed { reason, stdout, stderr, kind, retry_eligible }) => {
            let kind = if matches!(kind, Outcome::Assertion) {
                classify_failed(&stderr)
            } else {
                kind
            };
            let returned = matches!(kind, Outcome::Assertion);
            AttemptPlan::Failed {
                kind,
                reason,
                stdout,
                stderr,
                retryable: retry_eligible && (!matcher || returned),
            }
        },
        Ok(SubprocessOutcome::TimedOut(d)) => {
            let mut reason = "timed out after ".to_owned();
            reason.append(&d.seconds(1));
            reason.append("s");
            AttemptPlan::Failed {
                kind: Outcome::Timeout,
                reason,
                stdout: String::new(),
                stderr: String::new(),
                retryable: !matcher,
            }
        },
        Err(e) => AttemptPlan::Failed {
            kind: Outcome::Crash,
            reason: e,
            stdout: String::new(),
            stderr: String::new(),
            retryable: !matcher,
        },
    }
}

// ── the attempts of one test ────────────────────────────────────────────────

/// The outcome of a test.
#[derive(Clone, Copy, Debug, PartialEq, Eq, Structural)]
pub enum Verdict {
    Passed,
    Skipped,
    Failed,
}

/// What is reported of an attempt.
#[derive(Debug)]
pub enum AttemptEvent {
    Passed,
    Skipped { reason: String },
    Failed { kind: Outcome, reason: String, stdout: String, stderr: String },
    /// The attempt failed and another one follows.
    Retrying {
        attempt: u32,
        max_attempts: u32,
        kind: Outcome,
        reason: String,
        stdout: String,
        stderr: String,
    },
}

pub enum AttemptEventV {
    Passed,
    Skipped { reason: Seq<char> },
    Failed { kind: Outcome, reason: Seq<char>, stdout: Seq<char>, stderr: Seq<char> },
    Retrying {
        attempt: u32,
        max_attempts: u32,
        kind: Outcome,
        reason: Seq<char>,
        stdout: Seq<char>,
        stderr: Seq<char>,
    },
}

impl View for AttemptEvent {
    type V = AttemptEventV;

    open spec fn view(&self) -> AttemptEventV {
        match self {
            AttemptEvent::Passed => AttemptEventV::Passed,
            AttemptEvent::Skipped { reason } => AttemptEventV::Skipped { reason: reason@ },
            AttemptEvent::Failed { kind, reason, stdout, stderr } => AttemptEventV::Failed {
                kind: *kind,
                reason: reason@,
                stdout: stdout@,
                stderr: stderr@,
            },
            AttemptEvent::Retrying { attempt, max_attempts, kind, reason, stdout, stderr } =>
                AttemptEventV::Retrying {
                attempt: *attempt,
                max_attempts: *max_attempts,
                kind: *kind,
                reason: reason@,
                stdout: stdout@,
                stderr: stderr@,
            },
        }
    }
}

/// What is reported of attempt number `attempt` out of `max_attempts`, and the
/// test's outcome where no other attempt follows.
pub open spec fn step_of(plan: AttemptPlanV, attempt: u32, max_attempts: u32) -> (
    AttemptEventV,
    Option<Verdict>,
) {
    match plan {
        AttemptPlanV::Passed => (AttemptEventV::Passed, Some(Verdict::Passed)),
        AttemptPlanV::Skipped { reason } => (
            AttemptEventV::Skipped { reason },
            Some(Verdict::Skipped),
        ),
        AttemptPlanV::Failed { kind, reason, stdout, stderr, retryable } => if retryable && attempt
            < max_attempts {
            (
                AttemptEventV::Retrying { attempt, max_attempts, kind, reason, stdout, stderr },
                None,
            )
        } else {
            (AttemptEventV::Failed { kind, reason, stdout, stderr }, Some(Verdict::Failed))
        },
    }
}

/// The attempts of one test: the number of the next one, and how many there
/// may be.
pub struct TestRun {
    attempt: u32,
    max_attempts: u32,
    done: bool,
}

impl TestRun {
    /// The number of the next attempt, counted from one.
    pub closed spec fn attempt(self) -> u32 {
        self.attempt
    }

    /// How many attempts there may be.
    pub closed spec fn max_attempts(self) -> u32 {
        self.max_attempts
    }

    /// Whether the test's outcome is known.
    pub closed spec fn done(self) -> bool {
        self.done
    }

    /// What holds of every run: it is at one of its attempts.
    pub open spec fn well_formed(self) -> bool {
        1 <= self.attempt() <= self.max_attempts()
    }

    /// The first attempt of `pc`.
    pub fn new(pc: &PlannedCase) -> (run: TestRun)
        requires
            pc.max_attempts >= 1,
        ensures
            run.well_formed(),
            run.attempt() == 1,
            run.max_attempts() == pc.max_attempts,
            !run.done(),
    {
        TestRun { attempt: 1, max_attempts: pc.max_attempts, done: false }
    }

    /// Takes what came of the attempt at hand, and says what to report of it,
    /// and the test's outcome where no other attempt follows.
    pub fn on_result(&mut self, raw: Result<SubprocessOutcome, String>, tc: &TestCase) -> (r: (
        AttemptEvent,
        Option<Verdict>,
    ))
        requires
            old(self).well_formed(),
            !old(self).done(),
        ensures
            final(self).well_formed(),
            final(self).max_attempts() == old(self).max_attempts(),
            (r.0@, r.1) == step_of(
                plan_of(raw_view(raw), tc.retry_on_error_set),
                old(self).attempt(),
                old(self).max_attempts(),
            ),
            final(self).done() <==> r.1 is Some,
            final(self).attempt() == if r.1 is Some {
                old(self).attempt() as int
            } else {
                old(self).attempt() + 1
            },
    {
        match plan(raw, tc) {
            AttemptPlan::Passed => {
                self.done = true;
                (AttemptEvent::Passed, Some(Verdict::Passed))
            },
            AttemptPlan::Skipped { reason } => {
                self.done = true;
                (AttemptEvent::Skipped { reason }, Some(Verdict::Skipped))
            },
            AttemptPlan::Failed { kind, reason, stdout, stderr, retryable } => {
                if retryable && self.attempt < self.max_attempts {
                    let attempt = self.attempt;
                    self.attempt = attempt + 1;
                    (
                        AttemptEvent::Retrying {
                            attempt,
                            max_attempts: self.max_attempts,
                            kind,
                            reason,
                            stdout,
                            stderr,
                        },
                        None,
                    )
                } else {
                    self.done = true;
                    (AttemptEvent::Failed { kind, reason, stdout, stderr }, Some(Verdict::Failed))
                }
            },
        }
    }
}

// ── laws ────────────────────────────────────────────────────────────────────

/// What came of the attempts of a test from attempt `attempt` on: what is
/// reported of each, and the outcome, given what the processes come to.
pub open spec fn run_from(
    raws: Seq<Result<protocol::SubprocessOutcomeV, Seq<char>>>,
    attempt: u32,
    max_attempts: u32,
    matcher: bool,
) -> (Seq<AttemptEventV>, Option<Verdict>)
    decreases raws.len(),
{
    if raws.len() == 0 {
        (seq![], None)
    } else {
        let (event, verdict) = step_of(plan_of(raws[0], matcher), attempt, max_attempts);
        if verdict is Some {
            (seq![event], verdict)
        } else {
            let (events, last) = run_from(
                raws.skip(1),
                (attempt + 1) as u32,
                max_attempts,
                matcher,
            );
            (seq![event] + events, last)
        }
    }
}

/// A test comes to an outcome within its attempts, whatever its processes come
/// to; and what is reported of it is a retry for every attempt but the last.
pub proof fn law_attempts_end(
    raws: Seq<Result<protocol::SubprocessOutcomeV, Seq<char>>>,
    attempt: u32,
    max_attempts: u32,
    matcher: bool,
)
    requires
        1 <= attempt <= max_attempts,
        raws.len() == max_attempts - attempt + 1,
    ensures
        ({
            let (events, verdict) = run_from(raws, attempt, max_attempts, matcher);
            &&& verdict is Some
            &&& 1 <= events.len() <= raws.len()
            &&& !(events.last() is Retrying)
            &&& forall|i: int|
                0 <= i < events.len() - 1 ==> (#[trigger] events[i] is Retrying
                    && events[i]->Retrying_attempt == attempt + i)
        }),
    decreases raws.len(),
{
    let (event, verdict) = step_of(plan_of(raws[0], matcher), attempt, max_attempts);
    if verdict is None {
        law_attempts_end(raws.skip(1), (attempt + 1) as u32, max_attempts, matcher);
        let (rest, last) = run_from(raws.skip(1), (attempt + 1) as u32, max_attempts, matcher);
        let events = seq![event] + rest;
        assert(events.last() == rest.last());
        assert forall|i: int| 0 <= i < events.len() - 1 implies (#[trigger] events[i] is Retrying
            && events[i]->Retrying_attempt == attempt + i) by {
            if i > 0 {
                assert(events[i] == rest[i - 1]);
            }
        }
    }
}

/// With an error pattern in force, an attempt is retried exactly where its
/// process ended with the exit code of an error that the pattern accepts, its
/// standard error shows no panic, and there is an attempt left; whether or not
/// its output is captured.
pub proof fn law_pattern_limits_retries(
    exit_code: Option<i32>,
    stdout: Seq<char>,
    stderr: Seq<char>,
    attempt: u32,
    max_attempts: u32,
)
    ensures
        ({
            let retried = exit_code == Some(protocol::FAIL_EXIT_CODE) && !text::contains(
                stderr,
                "panicked at"@,
            ) && attempt < max_attempts;
            let captured = protocol::outcome_of(exit_code, stdout, stderr);
            let uncaptured = protocol::uncaptured_of(exit_code, stderr).0;
            &&& step_of(plan_of(Ok(captured), true), attempt, max_attempts).1 is None <==> retried
            &&& step_of(plan_of(Ok(uncaptured), true), attempt, max_attempts).1 is None <==> retried
        }),
{
    reveal_strlit("panicked at");
    let p = "panicked at"@;
    assert(!text::contains(seq![], p)) by {
        assert forall|i: int| !text::occurs_at(seq![], p, i) by {}
    }
}

/// With an error pattern in force, neither a timeout nor a failure to run the
/// process is retried.
pub proof fn law_pattern_excludes_timeouts(
    raw: Result<protocol::SubprocessOutcomeV, Seq<char>>,
    attempt: u32,
    max_attempts: u32,
)
    requires
        raw is Err || raw->Ok_0 is TimedOut,
    ensures
        step_of(plan_of(raw, true), attempt, max_attempts).1 == Some(Verdict::Failed),
{
}

/// Whether the output of a process is captured makes no difference to whether
/// its attempt is retried, nor to how its failure is reported.
pub proof fn law_capture_does_not_decide(
    exit_code: Option<i32>,
    stdout: Seq<char>,
    stderr: Seq<char>,
    matcher: bool,
)
    ensures
        ({
            let captured = plan_of(Ok(protocol::outcome_of(exit_code, stdout, stderr)), matcher);
            let uncaptured = plan_of(Ok(protocol::uncaptured_of(exit_code, stderr).0), matcher);
            &&& captured is Failed <==> uncaptured is Failed
            &&& captured is Failed ==> captured->Failed_kind == uncaptured->Failed_kind
            &&& captured is Failed ==> captured->Failed_retryable == uncaptured->Failed_retryable
        }),
{
    reveal_strlit("panicked at");
    let p = "panicked at"@;
    assert(!text::contains(seq![], p)) by {
        assert forall|i: int| !text::occurs_at(seq![], p, i) by {}
    }
}

/// A test that passed or was skipped is not run again.
pub proof fn law_success_is_final(
    raw: Result<protocol::SubprocessOutcomeV, Seq<char>>,
    attempt: u32,
    max_attempts: u32,
    matcher: bool,
)
    requires
        raw matches Ok(outcome) && (outcome is Passed || outcome is Skipped),
    ensures
        step_of(plan_of(raw, matcher), attempt, max_attempts).1 == Some(
            if raw->Ok_0 is Passed {
                Verdict::Passed
            } else {
                Verdict::Skipped
            },
        ),
{
}

/// What is reported of an attempt that failed, whether another one follows or
/// not, is the reason and the outputs that its process gave, each as its own;
/// it is reported as a panic where its standard error shows one, and otherwise
/// as what its process tells.
pub proof fn law_failure_is_reported_as_it_was(
    reason: Seq<char>,
    stdout: Seq<char>,
    stderr: Seq<char>,
    kind: Outcome,
    retry_eligible: bool,
    matcher: bool,
    attempt: u32,
    max_attempts: u32,
)
    ensures
        ({
            let raw = protocol::SubprocessOutcomeV::Failed {
                reason,
                stdout,
                stderr,
                kind,
                retry_eligible,
            };
            let (event, verdict) = step_of(plan_of(Ok(raw), matcher), attempt, max_attempts);
            let told = if kind == Outcome::Assertion && text::contains(stderr, "panicked at"@) {
                Outcome::Panic
            } else {
                kind
            };
            &&& event matches AttemptEventV::Failed { kind: k, reason: r, stdout: o, stderr: e } ==> {
                &&& (k, r, o, e) == (told, reason, stdout, stderr)
                &&& verdict == Some(Verdict::Failed)
            }
            &&& event matches AttemptEventV::Retrying {
                attempt: n,
                max_attempts: m,
                kind: k,
                reason: r,
                stdout: o,
                stderr: e,
            } ==> {
                &&& (k, r, o, e) == (told, reason, stdout, stderr)
                &&& (n, m) == (attempt, max_attempts)
                &&& verdict is None
            }
            &&& event is Failed || event is Retrying
        }),
{
}

/// Without an error pattern, an attempt that failed is retried exactly where
/// the test itself does not refuse that and there is an attempt left; one that
/// was stopped after its timeout, or could not be run, is retried exactly where
/// there is an attempt left. Such an attempt is reported as a timeout, with the
/// time, or as a crash, with what was wrong, and with nothing that it wrote.
pub proof fn law_failures_are_retried(
    raw: Result<protocol::SubprocessOutcomeV, Seq<char>>,
    attempt: u32,
    max_attempts: u32,
)
    ensures
        ({
            let (event, verdict) = step_of(plan_of(raw, false), attempt, max_attempts);
            &&& verdict is None <==> attempt < max_attempts && match raw {
                Ok(protocol::SubprocessOutcomeV::Passed) => false,
                Ok(protocol::SubprocessOutcomeV::Skipped(_)) => false,
                Ok(
                    protocol::SubprocessOutcomeV::Failed {
                        reason,
                        stdout,
                        stderr,
                        kind,
                        retry_eligible,
                    },
                ) => retry_eligible,
                Ok(protocol::SubprocessOutcomeV::TimedOut(_)) => true,
                Err(_) => true,
            }
            &&& raw matches Ok(protocol::SubprocessOutcomeV::TimedOut(d)) ==> {
                let (kind, reason, stdout, stderr) = told_of(event);
                &&& kind == Outcome::Timeout
                &&& text::contains(reason, duration::seconds_text(d@, 1))
                &&& stdout.len() == 0 && stderr.len() == 0
            }
            &&& raw matches Err(e) ==> {
                let (kind, reason, stdout, stderr) = told_of(event);
                &&& kind == Outcome::Crash
                &&& reason == e
                &&& stdout.len() == 0 && stderr.len() == 0
            }
        }),
{
    if let Ok(protocol::SubprocessOutcomeV::TimedOut(d)) = raw {
        let time = duration::seconds_text(d@, 1);
        assert(time.subrange(0, time.len() as int) =~= time);
        assert(text::occurs_at(time, time, 0));
        text::lemma_contains_within("timed out after "@, time, "s"@, time);
    }
}

/// What is told of an attempt that failed.
pub open spec fn told_of(event: AttemptEventV) -> (Outcome, Seq<char>, Seq<char>, Seq<char>) {
    match event {
        AttemptEventV::Failed { kind, reason, stdout, stderr } => (kind, reason, stdout, stderr),
        AttemptEventV::Retrying { attempt, max_attempts, kind, reason, stdout, stderr } => (
            kind,
            reason,
            stdout,
            stderr,
        ),
        _ => (Outcome::Crash, seq![], seq![], seq![]),
    }
}

/// The outcome of a test is that of its last attempt: attempts that failed
/// before, and were retried, do not count against a test that then passes or
/// is skipped.
pub proof fn law_last_attempt_decides(
    raws: Seq<Result<protocol::SubprocessOutcomeV, Seq<char>>>,
    attempt: u32,
    max_attempts: u32,
    matcher: bool,
    n: int,
)
    requires
        1 <= attempt,
        0 <= n < raws.len(),
        attempt + n <= max_attempts,
        forall|i: int|
            0 <= i < n ==> (plan_of(#[trigger] raws[i], matcher) matches AttemptPlanV::Failed {
                kind,
                reason,
                stdout,
                stderr,
                retryable,
            } && retryable),
        raws[n] matches Ok(o) && (o is Passed || o is Skipped),
    ensures
        ({
            let (events, verdict) = run_from(raws, attempt, max_attempts, matcher);
            &&& events.len() == n + 1
            &&& raws[n]->Ok_0 is Passed ==> verdict == Some(Verdict::Passed)
                && events[n] is Passed
            &&& raws[n]->Ok_0 matches protocol::SubprocessOutcomeV::Skipped(why) ==> verdict
                == Some(Verdict::Skipped) && events[n] == (AttemptEventV::Skipped { reason: why })
        }),
    decreases raws.len(),
{
    if n > 0 {
        let rest = raws.skip(1);
        assert(plan_of(raws[0], matcher) is Failed);
        assert forall|i: int| 0 <= i < n - 1 implies (plan_of(
            #[trigger] rest[i],
            matcher,
        ) matches AttemptPlanV::Failed { kind, reason, stdout, stderr, retryable } && retryable) by {
            assert(rest[i] == raws[i + 1]);
        }
        law_last_attempt_decides(rest, (attempt + 1) as u32, max_attempts, matcher, n - 1);
    }
}

/// A test fails exactly where its last attempt does, and an attempt is the
/// last one where there is none left.
pub proof fn law_verdict_is_that_of_the_attempt(
    raw: Result<protocol::SubprocessOutcomeV, Seq<char>>,
    matcher: bool,
    attempt: u32,
    max_attempts: u32,
)
    ensures
        ({
            let (event, verdict) = step_of(plan_of(raw, matcher), attempt, max_attempts);
            &&& verdict == Some(Verdict::Passed) <==> (raw matches Ok(o) && o is Passed)
            &&& verdict == Some(Verdict::Skipped) <==> (raw matches Ok(o) && o is Skipped)
            &&& attempt >= max_attempts ==> verdict is Some
            &&& event is Passed <==> verdict == Some(Verdict::Passed)
            &&& event is Skipped <==> verdict == Some(Verdict::Skipped)
            &&& event is Failed <==> verdict == Some(Verdict::Failed)
            &&& event is Retrying <==> verdict is None
        }),
{
}

} // verus!
