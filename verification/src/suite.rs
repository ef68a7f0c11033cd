//! The course of a test program that runs its suite: the probes, the suite's
//! own setup, the tests, the reports, and the suite's own teardown.

use crate::orchestrator;
use crate::orchestrator::{Registrations, RunError};
use crate::preflight_runner;
use crate::preflight_runner::PreflightVerdict;
use crate::scheduler::RuntimeArgs;
use vstd::prelude::*;

verus! {

/// What the program does next.
#[derive(Debug)]
pub enum SuiteStep {
    /// Stop: the program is put together wrongly.
    Refuse { message: String },
    /// Say that no probes are declared, and end with success.
    NothingDeclared,
    /// Run the probes.
    Probe,
    /// Write the reports of a run without tests.
    Flush,
    /// Run the suite's setup.
    Setup,
    /// Run the tests.
    Execute,
    /// Write the reports.
    Finish { passed: usize, skipped: usize, total: usize },
    /// Run the suite's teardown.
    Teardown,
    /// End.
    End { result: Result<(), RunError> },
}

pub enum SuiteStepV {
    Refuse { message: Seq<char> },
    NothingDeclared,
    Probe,
    Flush,
    Setup,
    Execute,
    Finish { passed: usize, skipped: usize, total: usize },
    Teardown,
    End { result: Result<(), RunErrorV> },
}

pub enum RunErrorV {
    Preflight(Seq<char>),
    Other(Seq<char>),
}

/// What a run comes to.
pub open spec fn result_view(result: Result<(), RunError>) -> Result<(), RunErrorV> {
    match result {
        Ok(()) => Ok(()),
        Err(RunError::Preflight(e)) => Err(RunErrorV::Preflight(e@)),
        Err(RunError::Other(e)) => Err(RunErrorV::Other(e@)),
    }
}

impl DeepView for SuiteStep {
    type V = SuiteStepV;

    open spec fn deep_view(&self) -> SuiteStepV {
        match self {
            SuiteStep::Refuse { message } => SuiteStepV::Refuse { message: message@ },
            SuiteStep::NothingDeclared => SuiteStepV::NothingDeclared,
            SuiteStep::Probe => SuiteStepV::Probe,
            SuiteStep::Flush => SuiteStepV::Flush,
            SuiteStep::Setup => SuiteStepV::Setup,
            SuiteStep::Execute => SuiteStepV::Execute,
            SuiteStep::Finish { passed, skipped, total } => SuiteStepV::Finish {
                passed: *passed,
                skipped: *skipped,
                total: *total,
            },
            SuiteStep::Teardown => SuiteStepV::Teardown,
            SuiteStep::End { result } => SuiteStepV::End { result: result_view(*result) },
        }
    }
}

/// What the course of a run depends on.
#[derive(Clone, Copy, Debug, PartialEq, Eq, Structural)]
pub struct SuiteFacts {
    pub no_preflight: bool,
    pub preflight_only: bool,
    pub continue_on_preflight_failure: bool,
    /// Whether the suite declares probes.
    pub has_preflight: bool,
    /// Whether the suite has a setup.
    pub has_setup: bool,
    /// Whether the suite has a teardown.
    pub has_teardown: bool,
    /// The number of tests that are registered.
    pub tests_total: usize,
}

/// How far the run is.
pub enum SuiteStage {
    Probing,
    /// The reports are written before the run ends for that reason.
    Flushing { reason: String },
    SettingUp,
    Executing,
    Finishing { passed: usize, skipped: usize, total: usize },
    TearingDown { result: Result<(), String> },
    Ended,
}

pub enum SuiteStageV {
    Probing,
    Flushing { reason: Seq<char> },
    SettingUp,
    Executing,
    Finishing { passed: usize, skipped: usize, total: usize },
    TearingDown { result: Result<(), Seq<char>> },
    Ended,
}

/// A result, with the text of its error.
pub open spec fn text_result(r: Result<(), String>) -> Result<(), Seq<char>> {
    match r {
        Ok(()) => Ok(()),
        Err(e) => Err(e@),
    }
}

impl DeepView for SuiteStage {
    type V = SuiteStageV;

    open spec fn deep_view(&self) -> SuiteStageV {
        match self {
            SuiteStage::Probing => SuiteStageV::Probing,
            SuiteStage::Flushing { reason } => SuiteStageV::Flushing { reason: reason@ },
            SuiteStage::SettingUp => SuiteStageV::SettingUp,
            SuiteStage::Executing => SuiteStageV::Executing,
            SuiteStage::Finishing { passed, skipped, total } => SuiteStageV::Finishing {
                passed: *passed,
                skipped: *skipped,
                total: *total,
            },
            SuiteStage::TearingDown { result } => SuiteStageV::TearingDown {
                result: text_result(*result),
            },
            SuiteStage::Ended => SuiteStageV::Ended,
        }
    }
}

/// What came of a step.
#[derive(Debug)]
pub enum SuiteAnswer {
    /// The probes came to that, or could not be run for that reason.
    Probed { verdict: Result<PreflightVerdict, String> },
    Flushed,
    SetUp,
    /// So many tests were run, and so many of them passed and were skipped.
    Executed { passed: usize, skipped: usize, total: usize },
    /// The reports were written, or could not be.
    Finished { result: Result<(), String> },
    TornDown,
}

/// The run of a suite.
pub struct SuiteRun {
    pub facts: SuiteFacts,
    pub stage: SuiteStage,
}

/// The tests follow, behind the suite's setup where it has one.
pub open spec fn to_tests(facts: SuiteFacts) -> (SuiteStageV, SuiteStepV) {
    if facts.has_setup {
        (SuiteStageV::SettingUp, SuiteStepV::Setup)
    } else {
        (SuiteStageV::Executing, SuiteStepV::Execute)
    }
}

/// The run ends.
pub open spec fn ends(result: Result<(), RunErrorV>) -> (SuiteStageV, SuiteStepV) {
    (SuiteStageV::Ended, SuiteStepV::End { result })
}

/// What a run comes to whose tests and reports came to that.
pub open spec fn other_result(result: Result<(), Seq<char>>) -> Result<(), RunErrorV> {
    match result {
        Ok(()) => Ok(()),
        Err(e) => Err(RunErrorV::Other(e)),
    }
}

/// The first step: none where the program is put together wrongly or an
/// unknown reporter is asked for; else the probes, where they are declared and
/// wanted; else the tests, unless nothing but the probes is asked for.
pub open spec fn first_step(
    registrations: Option<Seq<char>>,
    reporter: Option<Seq<char>>,
    facts: SuiteFacts,
) -> (SuiteStageV, SuiteStepV) {
    if registrations is Some {
        (SuiteStageV::Ended, SuiteStepV::Refuse { message: registrations->0 })
    } else if reporter is Some {
        ends(Err(RunErrorV::Other(reporter->0)))
    } else if !facts.no_preflight && facts.has_preflight {
        (SuiteStageV::Probing, SuiteStepV::Probe)
    } else if facts.preflight_only {
        (SuiteStageV::Ended, SuiteStepV::NothingDeclared)
    } else {
        to_tests(facts)
    }
}

/// What follows the probes. The run ends where they could not be run, where
/// nothing else is asked for, and where one failed and failures are not to be
/// passed over; in that case the reports are written first.
pub open spec fn after_probes(
    verdict: Result<PreflightVerdict, Seq<char>>,
    facts: SuiteFacts,
) -> (SuiteStageV, SuiteStepV) {
    match verdict {
        Err(e) => ends(Err(RunErrorV::Preflight(e))),
        Ok(v) => {
            let reason = preflight_runner::abort_text(
                v.failed_count as nat,
                facts.tests_total as nat,
            );
            if facts.preflight_only {
                ends(
                    if v.passed {
                        Ok(())
                    } else {
                        Err(RunErrorV::Preflight(reason))
                    },
                )
            } else if !v.passed && !facts.continue_on_preflight_failure {
                (SuiteStageV::Flushing { reason }, SuiteStepV::Flush)
            } else {
                to_tests(facts)
            }
        },
    }
}

/// What follows the reports: the suite's teardown, where it has one, whatever
/// the tests and the reports came to; then the end.
pub open spec fn after_finish(
    passed: usize,
    skipped: usize,
    total: usize,
    finish: Result<(), Seq<char>>,
    facts: SuiteFacts,
) -> (SuiteStageV, SuiteStepV) {
    let result = orchestrator::suite_result(passed as nat, skipped as nat, total as nat, finish);
    if facts.has_teardown {
        (SuiteStageV::TearingDown { result }, SuiteStepV::Teardown)
    } else {
        ends(other_result(result))
    }
}

/// Whether an answer is one to the step that was taken last.
pub open spec fn fits(stage: SuiteStageV, answer: SuiteAnswer) -> bool {
    match stage {
        SuiteStageV::Probing => answer is Probed,
        SuiteStageV::Flushing { .. } => answer is Flushed,
        SuiteStageV::SettingUp => answer is SetUp,
        SuiteStageV::Executing => answer matches SuiteAnswer::Executed { passed, skipped, total }
            && passed + skipped <= total,
        SuiteStageV::Finishing { passed, skipped, total } => answer is Finished && passed + skipped
            <= total,
        SuiteStageV::TearingDown { .. } => answer is TornDown,
        SuiteStageV::Ended => false,
    }
}

/// What follows an answer.
pub open spec fn goes_on(facts: SuiteFacts, stage: SuiteStageV, answer: SuiteAnswer) -> (
    SuiteStageV,
    SuiteStepV,
) {
    match (stage, answer) {
        (SuiteStageV::Probing, SuiteAnswer::Probed { verdict }) => after_probes(
            match verdict {
                Ok(v) => Ok(v),
                Err(e) => Err(e@),
            },
            facts,
        ),
        (SuiteStageV::Flushing { reason }, SuiteAnswer::Flushed) => ends(
            Err(RunErrorV::Preflight(reason)),
        ),
        (SuiteStageV::SettingUp, SuiteAnswer::SetUp) => (
            SuiteStageV::Executing,
            SuiteStepV::Execute,
        ),
        (SuiteStageV::Executing, SuiteAnswer::Executed { passed, skipped, total }) => (
            SuiteStageV::Finishing { passed, skipped, total },
            SuiteStepV::Finish { passed, skipped, total },
        ),
        (SuiteStageV::Finishing { passed, skipped, total }, SuiteAnswer::Finished { result }) =>
            after_finish(passed, skipped, total, text_result(result), facts),
        (SuiteStageV::TearingDown { result }, SuiteAnswer::TornDown) => ends(other_result(result)),
        _ => arbitrary(),
    }
}

fn go_to_tests(facts: SuiteFacts) -> (r: (SuiteRun, SuiteStep))
    ensures
        r.0.facts == facts,
        (r.0.stage.deep_view(), r.1.deep_view()) == to_tests(facts),
{
    if facts.has_setup {
        (SuiteRun { facts, stage: SuiteStage::SettingUp }, SuiteStep::Setup)
    } else {
        (SuiteRun { facts, stage: SuiteStage::Executing }, SuiteStep::Execute)
    }
}

fn end(facts: SuiteFacts, result: Result<(), RunError>) -> (r: (SuiteRun, SuiteStep))
    ensures
        r.0.facts == facts,
        (r.0.stage.deep_view(), r.1.deep_view()) == ends(result_view(result)),
{
    (SuiteRun { facts, stage: SuiteStage::Ended }, SuiteStep::End { result })
}

fn end_with(facts: SuiteFacts, result: Result<(), String>) -> (r: (SuiteRun, SuiteStep))
    ensures
        r.0.facts == facts,
        (r.0.stage.deep_view(), r.1.deep_view()) == ends(other_result(text_result(result))),
{
    match result {
        Ok(()) => end(facts, Ok(())),
        Err(e) => end(facts, Err(RunError::Other(e))),
    }
}

/// The facts of a run with those arguments, in a program with those
/// registrations and tests.
pub open spec fn facts_in(
    args: RuntimeArgs,
    r: Registrations,
    tests_total: usize,
) -> SuiteFacts {
    SuiteFacts {
        no_preflight: args.no_preflight,
        preflight_only: args.preflight_only,
        continue_on_preflight_failure: args.continue_on_preflight_failure,
        has_preflight: r.preflight > 0,
        has_setup: r.global_setup > 0,
        has_teardown: r.global_teardown > 0,
        tests_total,
    }
}

/// The facts of a run with those arguments, in a program with those
/// registrations and tests.
pub fn facts_of(args: &RuntimeArgs, r: &Registrations, tests_total: usize) -> (f: SuiteFacts)
    ensures
        f == facts_in(*args, *r, tests_total),
{
    SuiteFacts {
        no_preflight: args.no_preflight,
        preflight_only: args.preflight_only,
        continue_on_preflight_failure: args.continue_on_preflight_failure,
        has_preflight: r.preflight > 0,
        has_setup: r.global_setup > 0,
        has_teardown: r.global_teardown > 0,
        tests_total,
    }
}

impl SuiteRun {
    /// The run of a suite, and its first step.
    pub fn start(args: &RuntimeArgs, registrations: &Registrations, tests_total: usize) -> (r: (
        SuiteRun,
        SuiteStep,
    ))
        ensures
            (r.0.stage.deep_view(), r.1.deep_view()) == first_step(
                orchestrator::registrations_error(*registrations),
                orchestrator::reporter_error(args.reporter.deep_view()),
                r.0.facts,
            ),
            r.0.facts == facts_in(*args, *registrations, tests_total),
    {
        let facts = facts_of(args, registrations, tests_total);
        if let Some(message) = orchestrator::check_singleton_registrations(registrations) {
            return (SuiteRun { facts, stage: SuiteStage::Ended }, SuiteStep::Refuse { message });
        }
        let kind = match &args.reporter {
            Some(name) => orchestrator::reporter_kind(Some(name.as_str())),
            None => orchestrator::reporter_kind(None),
        };
        if let Err(e) = kind {
            return end(facts, Err(RunError::Other(e)));
        }
        if !facts.no_preflight && facts.has_preflight {
            return (SuiteRun { facts, stage: SuiteStage::Probing }, SuiteStep::Probe);
        }
        if facts.preflight_only {
            return (SuiteRun { facts, stage: SuiteStage::Ended }, SuiteStep::NothingDeclared);
        }
        go_to_tests(facts)
    }

    /// What follows an answer to the step that was taken last.
    pub fn answer(self, answer: SuiteAnswer) -> (r: (SuiteRun, SuiteStep))
        requires
            fits(self.stage.deep_view(), answer),
        ensures
            r.0.facts == self.facts,
            (r.0.stage.deep_view(), r.1.deep_view()) == goes_on(
                self.facts,
                self.stage.deep_view(),
                answer,
            ),
    {
        let facts = self.facts;
        match (self.stage, answer) {
            (SuiteStage::Probing, SuiteAnswer::Probed { verdict }) => match verdict {
                Err(e) => end(facts, Err(RunError::Preflight(e))),
                Ok(v) => {
                    if facts.preflight_only {
                        if v.passed {
                            return end(facts, Ok(()));
                        }
                        let reason = preflight_runner::format_abort_message(
                            v.failed_count,
                            facts.tests_total,
                        );
                        return end(facts, Err(RunError::Preflight(reason)));
                    }
                    match preflight_runner::after_preflight(
                        &v,
                        facts.continue_on_preflight_failure,
                        facts.tests_total,
                    ) {
                        preflight_runner::ControlFlow::Abort(reason) => (
                            SuiteRun { facts, stage: SuiteStage::Flushing { reason } },
                            SuiteStep::Flush,
                        ),
                        preflight_runner::ControlFlow::Continue => go_to_tests(facts),
                    }
                },
            },
            (SuiteStage::Flushing { reason }, _) => end(facts, Err(RunError::Preflight(reason))),
            (SuiteStage::SettingUp, _) => (
                SuiteRun { facts, stage: SuiteStage::Executing },
                SuiteStep::Execute,
            ),
            (SuiteStage::Executing, SuiteAnswer::Executed { passed, skipped, total }) => (
                SuiteRun { facts, stage: SuiteStage::Finishing { passed, skipped, total } },
                SuiteStep::Finish { passed, skipped, total },
            ),
            (
                SuiteStage::Finishing { passed, skipped, total },
                SuiteAnswer::Finished { result },
            ) => {
                let result = orchestrator::conclude(passed, skipped, total, result);
                if facts.has_teardown {
                    (
                        SuiteRun { facts, stage: SuiteStage::TearingDown { result } },
                        SuiteStep::Teardown,
                    )
                } else {
                    end_with(facts, result)
                }
            },
            (SuiteStage::TearingDown { result }, _) => end_with(facts, result),
            _ => end(facts, Ok(())),
        }
    }
}

// ── laws ────────────────────────────────────────────────────────────────────

/// No test runs where a probe failed and failures are not to be passed over:
/// the reports are written and the run ends, with the exit code of its own
/// that such an end has.
pub proof fn law_failed_probes_stop_the_run(facts: SuiteFacts, v: PreflightVerdict)
    requires
        !v.passed,
        !facts.continue_on_preflight_failure || facts.preflight_only,
    ensures
        ({
            let (stage, step) = after_probes(Ok(v), facts);
            let last = if step is Flush {
                goes_on(facts, stage, SuiteAnswer::Flushed).1
            } else {
                step
            };
            last == (SuiteStepV::End {
                result: Err(
                    RunErrorV::Preflight(
                        preflight_runner::abort_text(
                            v.failed_count as nat,
                            facts.tests_total as nat,
                        ),
                    ),
                ),
            })
        }),
{
}

/// Where nothing but the probes is asked for, neither the suite's setup nor a
/// test runs.
pub proof fn law_probes_only(
    registrations: Option<Seq<char>>,
    reporter: Option<Seq<char>>,
    facts: SuiteFacts,
    verdict: Result<PreflightVerdict, Seq<char>>,
)
    requires
        facts.preflight_only,
    ensures
        !(first_step(registrations, reporter, facts).1 is Setup),
        !(first_step(registrations, reporter, facts).1 is Execute),
        after_probes(verdict, facts).1 is End,
{
}

/// The tests come behind the suite's setup, where it has one, and before its
/// teardown; the teardown runs whatever the tests and the reports came to, and
/// the run ends with what they came to.
pub proof fn law_setup_tests_teardown(
    facts: SuiteFacts,
    passed: usize,
    skipped: usize,
    total: usize,
    finish: Result<(), String>,
)
    requires
        passed + skipped <= total,
    ensures
        ({
            let (a, first) = to_tests(facts);
            let (b, second) = if facts.has_setup {
                goes_on(facts, a, SuiteAnswer::SetUp)
            } else {
                (a, first)
            };
            let (c, third) = goes_on(facts, b, SuiteAnswer::Executed { passed, skipped, total });
            let (d, fourth) = goes_on(facts, c, SuiteAnswer::Finished { result: finish });
            let last = if facts.has_teardown {
                goes_on(facts, d, SuiteAnswer::TornDown).1
            } else {
                fourth
            };
            &&& facts.has_setup ==> first is Setup
            &&& second is Execute
            &&& third == (SuiteStepV::Finish { passed, skipped, total })
            &&& facts.has_teardown ==> fourth is Teardown
            &&& last == (SuiteStepV::End {
                result: other_result(
                    orchestrator::suite_result(
                        passed as nat,
                        skipped as nat,
                        total as nat,
                        text_result(finish),
                    ),
                ),
            })
        }),
{
}

/// A program that is put together wrongly runs nothing, and neither does one
/// that is asked for an unknown reporter. Otherwise the probes are run first,
/// exactly where they are declared and not switched off; and where they are
/// not, the tests follow unless nothing but the probes is asked for.
pub proof fn law_what_runs_first(
    registrations: Option<Seq<char>>,
    reporter: Option<Seq<char>>,
    facts: SuiteFacts,
)
    ensures
        ({
            let (stage, step) = first_step(registrations, reporter, facts);
            &&& registrations matches Some(e) ==> step == (SuiteStepV::Refuse { message: e })
            &&& registrations is None && reporter is Some ==> step == (SuiteStepV::End {
                result: Err(RunErrorV::Other(reporter->0)),
            })
            &&& step is Probe <==> registrations is None && reporter is None && facts.has_preflight
                && !facts.no_preflight
            &&& registrations is None && reporter is None && !(step is Probe) ==> {
                &&& facts.preflight_only <==> step is NothingDeclared
                &&& !facts.preflight_only && facts.has_setup <==> step is Setup
                &&& !facts.preflight_only && !facts.has_setup <==> step is Execute
            }
            &&& stage is Ended <==> step is Refuse || step is End || step is NothingDeclared
        }),
{
}

/// The tests follow the probes exactly where they are asked for and either no
/// probe failed or failures are to be passed over; where the probes could not
/// be run, the run ends with the reason.
pub proof fn law_tests_follow_the_probes(
    facts: SuiteFacts,
    v: PreflightVerdict,
    e: Seq<char>,
)
    ensures
        (after_probes(Ok(v), facts).1 is Setup || after_probes(Ok(v), facts).1 is Execute) <==> (
        !facts.preflight_only && (v.passed || facts.continue_on_preflight_failure)),
        after_probes(Ok(v), facts).1 is Setup ==> facts.has_setup,
        after_probes(Ok(v), facts).1 is Execute ==> !facts.has_setup,
        facts.preflight_only && v.passed ==> after_probes(Ok(v), facts).1 == (SuiteStepV::End {
            result: Ok(()),
        }),
        after_probes(Err(e), facts).1 == (SuiteStepV::End { result: Err(RunErrorV::Preflight(e)) }),
{
}

/// The parts of a suite that run are those that the program registers: the
/// probes unless the arguments leave them out, the setup before the tests and
/// the teardown after them. After failed probes the tests run exactly where the
/// arguments say so, and what is said otherwise tells how many tests did not.
pub proof fn law_registered_parts_run(
    args: RuntimeArgs,
    r: Registrations,
    tests_total: usize,
    failed_count: usize,
    finish: Result<(), Seq<char>>,
)
    ensures
        ({
            let facts = facts_in(args, r, tests_total);
            let failed = PreflightVerdict { declared: true, passed: false, failed_count };
            let after = after_probes(Ok(failed), facts);
            &&& first_step(None, None, facts).1 is Probe <==> r.preflight > 0 && !args.no_preflight
            &&& first_step(None, None, facts).1 is NothingDeclared <==> args.preflight_only && (
            r.preflight == 0 || args.no_preflight)
            &&& r.preflight == 0 && !args.preflight_only ==> (first_step(None, None, facts).1
                is Setup <==> r.global_setup > 0)
            &&& after_finish(0, 0, tests_total, finish, facts).1 is Teardown <==> r.global_teardown
                > 0
            &&& (after.1 is Setup || after.1 is Execute) <==> !args.preflight_only
                && args.continue_on_preflight_failure
            &&& !args.preflight_only && !args.continue_on_preflight_failure ==> after.0 == (
            SuiteStageV::Flushing {
                reason: preflight_runner::abort_text(failed_count as nat, tests_total as nat),
            })
        }),
{
}

} // verus!
