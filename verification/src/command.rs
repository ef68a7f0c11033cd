//! The course of `cargo rigtest run`: build the test programs, find out which
//! of them are ours, run those that are asked for one after the other, and
//! merge what they report.

use crate::cargo;
use crate::cargo::RunArgs;
use crate::text;
use vstd::prelude::*;

verus! {

/// What the command does next.
#[derive(Debug)]
pub enum CommandStep {
    /// Run `cargo` with those arguments.
    Build { args: Vec<String> },
    /// Ask that program whether it is one of ours.
    Probe { executable: String },
    /// Clear the place where the parts of the report are written.
    Prepare,
    /// Run that test program, for the target of that name, with those
    /// arguments.
    Run { name: String, executable: String, args: Vec<String> },
    /// Merge the parts of the report that the programs of those targets wrote.
    Merge { targets: Vec<(String, String)> },
    /// End with that exit code.
    Exit { code: i32 },
    /// End with that error.
    Fail { message: String },
}

pub enum CommandStepV {
    Build { args: Seq<Seq<char>> },
    Probe { executable: Seq<char> },
    Prepare,
    Run { name: Seq<char>, executable: Seq<char>, args: Seq<Seq<char>> },
    Merge { targets: Seq<(Seq<char>, Seq<char>)> },
    Exit { code: i32 },
    Fail { message: Seq<char> },
}

impl DeepView for CommandStep {
    type V = CommandStepV;

    open spec fn deep_view(&self) -> CommandStepV {
        match self {
            CommandStep::Build { args } => CommandStepV::Build { args: args.deep_view() },
            CommandStep::Probe { executable } => CommandStepV::Probe { executable: executable@ },
            CommandStep::Prepare => CommandStepV::Prepare,
            CommandStep::Run { name, executable, args } => CommandStepV::Run {
                name: name@,
                executable: executable@,
                args: args.deep_view(),
            },
            CommandStep::Merge { targets } => CommandStepV::Merge { targets: targets.deep_view() },
            CommandStep::Exit { code } => CommandStepV::Exit { code: *code },
            CommandStep::Fail { message } => CommandStepV::Fail { message: message@ },
        }
    }
}

/// What came of a step.
#[derive(Debug)]
pub enum Answer {
    /// `cargo` ended with that exit code, and wrote that.
    Built { success: bool, code: Option<i32>, stdout: String },
    /// Whether the program is one of ours.
    Probed { ours: bool },
    Prepared,
    /// The test program ended with that exit code.
    Ran { code: Option<i32> },
    Merged,
}

/// How far the command is.
pub enum CommandStage {
    Building,
    /// Programs are asked: those that were found, the number of them that were
    /// asked, and those that are ours.
    Probing { found: Vec<(String, String)>, next: usize, ours: Vec<(String, String)> },
    Preparing { targets: Vec<(String, String)> },
    /// Programs are run: the chosen ones, and the exit codes of those that
    /// ended.
    Running { targets: Vec<(String, String)>, codes: Vec<Option<i32>> },
    Merging { code: i32 },
    Ended,
}

pub enum CommandStageV {
    Building,
    Probing {
        found: Seq<(Seq<char>, Seq<char>)>,
        next: int,
        ours: Seq<(Seq<char>, Seq<char>)>,
    },
    Preparing { targets: Seq<(Seq<char>, Seq<char>)> },
    Running { targets: Seq<(Seq<char>, Seq<char>)>, codes: Seq<Option<i32>> },
    Merging { code: i32 },
    Ended,
}

impl DeepView for CommandStage {
    type V = CommandStageV;

    open spec fn deep_view(&self) -> CommandStageV {
        match self {
            CommandStage::Building => CommandStageV::Building,
            CommandStage::Probing { found, next, ours } => CommandStageV::Probing {
                found: found.deep_view(),
                next: *next as int,
                ours: ours.deep_view(),
            },
            CommandStage::Preparing { targets } => CommandStageV::Preparing {
                targets: targets.deep_view(),
            },
            CommandStage::Running { targets, codes } => CommandStageV::Running {
                targets: targets.deep_view(),
                codes: codes@,
            },
            CommandStage::Merging { code } => CommandStageV::Merging { code: *code },
            CommandStage::Ended => CommandStageV::Ended,
        }
    }
}

/// The command, on its way.
pub struct CommandRun {
    pub args: RunArgs,
    pub stage: CommandStage,
}

/// What follows once those programs have ended: the next one runs; after the
/// last, the report is merged where one is asked for; and the command ends
/// with the exit code that the programs give.
pub open spec fn run_next(
    args: RunArgs,
    targets: Seq<(Seq<char>, Seq<char>)>,
    codes: Seq<Option<i32>>,
) -> (CommandStageV, CommandStepV) {
    let code = cargo::code_after(codes, codes.len() as int);
    if codes.len() < targets.len() {
        (
            CommandStageV::Running { targets, codes },
            CommandStepV::Run {
                name: targets[codes.len() as int].0,
                executable: targets[codes.len() as int].1,
                args: cargo::forwarded(args),
            },
        )
    } else if args.junit {
        (CommandStageV::Merging { code }, CommandStepV::Merge { targets })
    } else {
        (CommandStageV::Ended, CommandStepV::Exit { code })
    }
}

/// What follows once `next` of the programs that were found were asked: the
/// next one is asked; after the last, the chosen ones run, unless the choice is
/// wrong.
pub open spec fn probe_next(
    args: RunArgs,
    found: Seq<(Seq<char>, Seq<char>)>,
    next: int,
    ours: Seq<(Seq<char>, Seq<char>)>,
) -> (CommandStageV, CommandStepV) {
    if next < found.len() {
        (
            CommandStageV::Probing { found, next, ours },
            CommandStepV::Probe { executable: found[next].1 },
        )
    } else {
        let targets = cargo::chosen_targets(ours, args.test.deep_view());
        match cargo::choice_error(ours, args.test.deep_view()) {
            Some(message) => (CommandStageV::Ended, CommandStepV::Fail { message }),
            None => if args.junit {
                (CommandStageV::Preparing { targets }, CommandStepV::Prepare)
            } else {
                run_next(args, targets, seq![])
            },
        }
    }
}

/// Whether an answer is one to the step that the command took last.
pub open spec fn answers(stage: CommandStageV, answer: Answer) -> bool {
    match stage {
        CommandStageV::Building => answer is Built,
        CommandStageV::Probing { found, next, ours } => answer is Probed && 0 <= next
            < found.len(),
        CommandStageV::Preparing { .. } => answer is Prepared,
        CommandStageV::Running { targets, codes } => answer is Ran && codes.len() < targets.len(),
        CommandStageV::Merging { .. } => answer is Merged,
        CommandStageV::Ended => false,
    }
}

/// What follows an answer.
pub open spec fn follows(args: RunArgs, stage: CommandStageV, answer: Answer) -> (
    CommandStageV,
    CommandStepV,
) {
    match (stage, answer) {
        (CommandStageV::Building, Answer::Built { success, code, stdout }) => if success {
            probe_next(args, cargo::artifacts_in(text::lines(stdout@)), 0, seq![])
        } else {
            (
                CommandStageV::Ended,
                CommandStepV::Fail { message: cargo::build_failure_text(code) },
            )
        },
        (CommandStageV::Probing { found, next, ours }, Answer::Probed { ours: is_ours }) =>
            probe_next(
            args,
            found,
            next + 1,
            if is_ours {
                ours.push(found[next])
            } else {
                ours
            },
        ),
        (CommandStageV::Preparing { targets }, Answer::Prepared) => run_next(
            args,
            targets,
            seq![],
        ),
        (CommandStageV::Running { targets, codes }, Answer::Ran { code }) => run_next(
            args,
            targets,
            codes.push(code),
        ),
        (CommandStageV::Merging { code }, Answer::Merged) => (
            CommandStageV::Ended,
            CommandStepV::Exit { code },
        ),
        _ => arbitrary(),
    }
}

fn start_next(args: RunArgs, targets: Vec<(String, String)>, codes: Vec<Option<i32>>) -> (r: (
    CommandRun,
    CommandStep,
))
    ensures
        r.0.args == args,
        (r.0.stage.deep_view(), r.1.deep_view()) == run_next(args, targets.deep_view(), codes@),
{
    let ghost all = targets.deep_view();
    if codes.len() < targets.len() {
        let n: usize = codes.len();
        assert(all[n as int] == targets@[n as int].deep_view());
        let step = CommandStep::Run {
            name: targets[n].0.clone(),
            executable: targets[n].1.clone(),
            args: cargo::forwarded_args(&args),
        };
        return (CommandRun { args, stage: CommandStage::Running { targets, codes } }, step);
    }
    let code: i32 = cargo::last_code(&codes);
    if args.junit {
        (
            CommandRun { args, stage: CommandStage::Merging { code } },
            CommandStep::Merge { targets },
        )
    } else {
        (CommandRun { args, stage: CommandStage::Ended }, CommandStep::Exit { code })
    }
}

fn ask_next(
    args: RunArgs,
    found: Vec<(String, String)>,
    next: usize,
    ours: Vec<(String, String)>,
) -> (r: (CommandRun, CommandStep))
    requires
        next <= found@.len(),
    ensures
        r.0.args == args,
        (r.0.stage.deep_view(), r.1.deep_view()) == probe_next(
            args,
            found.deep_view(),
            next as int,
            ours.deep_view(),
        ),
{
    if next < found.len() {
        assert(found.deep_view()[next as int] == found@[next as int].deep_view());
        let step = CommandStep::Probe { executable: found[next].1.clone() };
        return (CommandRun { args, stage: CommandStage::Probing { found, next, ours } }, step);
    }
    match cargo::select_targets(ours, &args.test) {
        Err(message) => (
            CommandRun { args, stage: CommandStage::Ended },
            CommandStep::Fail { message },
        ),
        Ok(targets) => if args.junit {
            (
                CommandRun { args, stage: CommandStage::Preparing { targets } },
                CommandStep::Prepare,
            )
        } else {
            let codes: Vec<Option<i32>> = Vec::new();
            assert(codes@ =~= seq![]);
            start_next(args, targets, codes)
        },
    }
}

impl CommandRun {
    /// The command with those arguments, and its first step: the build.
    pub fn start(args: RunArgs) -> (r: (CommandRun, CommandStep))
        ensures
            r.0.args == args,
            r.0.stage.deep_view() == CommandStageV::Building,
            r.1.deep_view() == (CommandStepV::Build {
                args: cargo::build_args_of(args.package.deep_view(), args.test.deep_view()),
            }),
    {
        let step = CommandStep::Build { args: cargo::build_args(&args) };
        (CommandRun { args, stage: CommandStage::Building }, step)
    }

    /// What follows an answer to the step that was taken last.
    pub fn answer(self, answer: Answer) -> (r: (CommandRun, CommandStep))
        requires
            answers(self.stage.deep_view(), answer),
        ensures
            r.0.args == self.args,
            (r.0.stage.deep_view(), r.1.deep_view()) == follows(
                self.args,
                self.stage.deep_view(),
                answer,
            ),
    {
        match (self.stage, answer) {
            (CommandStage::Building, Answer::Built { success, code, stdout }) => {
                if !success {
                    let message = cargo::build_failure(code);
                    return (
                        CommandRun { args: self.args, stage: CommandStage::Ended },
                        CommandStep::Fail { message },
                    );
                }
                let ours: Vec<(String, String)> = Vec::new();
                assert(ours.deep_view() =~= seq![]);
                ask_next(self.args, cargo::find_all_test_executables(&stdout), 0, ours)
            },
            (CommandStage::Probing { found, next, ours }, Answer::Probed { ours: is_ours }) => {
                let n: usize = found.len();
                assert(next < n);
                let mut ours = ours;
                let ghost was = ours.deep_view();
                if is_ours {
                    ours.push((found[next].0.clone(), found[next].1.clone()));
                    assert(found.deep_view()[next as int] == found@[next as int].deep_view());
                    assert(ours.deep_view() =~= was.push(found.deep_view()[next as int]));
                }
                ask_next(self.args, found, next + 1, ours)
            },
            (CommandStage::Preparing { targets }, Answer::Prepared) => {
                let codes: Vec<Option<i32>> = Vec::new();
                assert(codes@ =~= seq![]);
                start_next(self.args, targets, codes)
            },
            (CommandStage::Running { targets, codes }, Answer::Ran { code }) => {
                let mut codes = codes;
                codes.push(code);
                start_next(self.args, targets, codes)
            },
            (CommandStage::Merging { code }, _) => {
                (
                    CommandRun { args: self.args, stage: CommandStage::Ended },
                    CommandStep::Exit { code },
                )
            },
            _ => (
                CommandRun { args: self.args, stage: CommandStage::Ended },
                CommandStep::Exit { code: 1 },
            ),
        }
    }
}

// ── laws ────────────────────────────────────────────────────────────────────

/// What follows the exit codes of the test programs, from the first one on.
pub open spec fn after_codes(
    args: RunArgs,
    targets: Seq<(Seq<char>, Seq<char>)>,
    codes: Seq<Option<i32>>,
) -> (CommandStageV, CommandStepV)
    decreases codes.len(),
{
    if codes.len() == 0 {
        run_next(args, targets, seq![])
    } else {
        follows(
            args,
            after_codes(args, targets, codes.drop_last()).0,
            Answer::Ran { code: codes.last() },
        )
    }
}

/// The chosen programs run one after the other, each once and in order; and
/// the step after the first `n` of them is the run of the next.
pub proof fn law_targets_run_in_order(
    args: RunArgs,
    targets: Seq<(Seq<char>, Seq<char>)>,
    codes: Seq<Option<i32>>,
)
    requires
        codes.len() <= targets.len(),
    ensures
        after_codes(args, targets, codes) == run_next(args, targets, codes),
        codes.len() < targets.len() ==> after_codes(args, targets, codes).1 == (CommandStepV::Run {
            name: targets[codes.len() as int].0,
            executable: targets[codes.len() as int].1,
            args: cargo::forwarded(args),
        }),
    decreases codes.len(),
{
    if codes.len() == 0 {
        assert(codes =~= seq![]);
    } else {
        law_targets_run_in_order(args, targets, codes.drop_last());
        assert(codes.drop_last().push(codes.last()) =~= codes);
    }
}

/// Without a report to merge, the command ends with success exactly where
/// every chosen program did; with one, the same holds once it is merged.
pub proof fn law_exit_code(
    args: RunArgs,
    targets: Seq<(Seq<char>, Seq<char>)>,
    codes: Seq<Option<i32>>,
)
    requires
        codes.len() == targets.len(),
    ensures
        ({
            let (stage, step) = after_codes(args, targets, codes);
            let last = if args.junit {
                follows(args, stage, Answer::Merged).1
            } else {
                step
            };
            &&& args.junit ==> step == (CommandStepV::Merge { targets })
            &&& last is Exit
            &&& last->code == 0 <==> forall|i: int|
                0 <= i < codes.len() ==> #[trigger] codes[i] == Some(0i32)
        }),
{
    law_targets_run_in_order(args, targets, codes);
    cargo::law_success_means_every_program(codes, codes.len() as int);
}

/// What follows the answers of the programs that were found, from the first
/// one on.
pub open spec fn after_probes(
    args: RunArgs,
    found: Seq<(Seq<char>, Seq<char>)>,
    answers: Seq<bool>,
) -> (CommandStageV, CommandStepV)
    decreases answers.len(),
{
    if answers.len() == 0 {
        probe_next(args, found, 0, seq![])
    } else {
        follows(
            args,
            after_probes(args, found, answers.drop_last()).0,
            Answer::Probed { ours: answers.last() },
        )
    }
}

/// The first programs, as many as there are answers, of which the answer says
/// that they are ours.
pub open spec fn confirmed(found: Seq<(Seq<char>, Seq<char>)>, answers: Seq<bool>) -> Seq<
    (Seq<char>, Seq<char>),
>
    decreases answers.len(),
{
    if answers.len() == 0 {
        seq![]
    } else if answers.last() {
        confirmed(found, answers.drop_last()).push(found[answers.len() - 1])
    } else {
        confirmed(found, answers.drop_last())
    }
}

/// Every program that was found is asked once, in order; and what may run is
/// what said that it is ours.
pub proof fn law_only_our_programs_run(
    args: RunArgs,
    found: Seq<(Seq<char>, Seq<char>)>,
    answers: Seq<bool>,
)
    requires
        answers.len() <= found.len(),
    ensures
        answers.len() < found.len() ==> after_probes(args, found, answers).1 == (
        CommandStepV::Probe { executable: found[answers.len() as int].1 }),
        answers.len() == found.len() ==> after_probes(args, found, answers) == {
            let ours = confirmed(found, answers);
            let targets = cargo::chosen_targets(ours, args.test.deep_view());
            match cargo::choice_error(ours, args.test.deep_view()) {
                Some(message) => (CommandStageV::Ended, CommandStepV::Fail { message }),
                None => if args.junit {
                    (CommandStageV::Preparing { targets }, CommandStepV::Prepare)
                } else {
                    after_codes(args, targets, seq![])
                },
            }
        },
        answers.len() < found.len() ==> after_probes(args, found, answers).0 == (
        CommandStageV::Probing {
            found,
            next: answers.len() as int,
            ours: confirmed(found, answers),
        }),
    decreases answers.len(),
{
    if answers.len() > 0 {
        law_only_our_programs_run(args, found, answers.drop_last());
    } else {
        assert(confirmed(found, answers) =~= seq![]);
    }
}

/// A build that failed ends the command with an error, and nothing is run. A
/// build that succeeded is followed by the programs that it reports, from the
/// first one on. Where a report is asked for, the place of its parts is
/// cleared before the first program runs, and its parts are merged after the
/// last.
pub proof fn law_course_of_the_command(
    args: RunArgs,
    success: bool,
    code: Option<i32>,
    stdout: String,
    targets: Seq<(Seq<char>, Seq<char>)>,
)
    ensures
        ({
            let next = follows(
                args,
                CommandStageV::Building,
                Answer::Built { success, code, stdout },
            );
            &&& !success ==> next.0 is Ended && next.1 is Fail && text::contains(
                next.1->message,
                match code {
                    Some(c) => text::signed_decimal(c as int),
                    None => "unknown"@,
                },
            )
            &&& success ==> next == after_probes(
                args,
                cargo::artifacts_in(text::lines(stdout@)),
                seq![],
            )
        }),
        follows(args, CommandStageV::Preparing { targets }, Answer::Prepared) == after_codes(
            args,
            targets,
            seq![],
        ),
{
    let head = "cargo test --no-run failed with exit code "@;
    let none: Seq<char> = seq![];
    let x = match code {
        Some(c) => text::signed_decimal(c as int),
        None => "unknown"@,
    };
    assert(x.subrange(0, x.len() as int) =~= x);
    assert(text::occurs_at(x, x, 0));
    text::lemma_contains_within(head, x, none, x);
    assert(head + x + none =~= head + x);
}

} // verus!
