//! The arguments of a test program, and what it does with them.

use vstd::prelude::*;

verus! {

/// The arguments of a test program.
#[derive(Debug)]
#[non_exhaustive]
pub struct RuntimeArgs {
    /// How many cases run at a time.
    pub jobs: Option<usize>,
    /// What the order of the cases depends on.
    pub seed: Option<u64>,
    /// What a case's name has to hold.
    pub filter: Option<String>,
    /// Tags of which a case has to have one.
    pub tag: Vec<String>,
    /// Tags of which a case may have none.
    pub not_tag: Vec<String>,
    /// Whether output is shown as it comes.
    pub no_capture: bool,
    /// The additional reporter.
    pub reporter: Option<String>,
    /// The number of retries in place of what each test declares.
    pub retries: Option<usize>,
    /// Whether the probes are left out.
    pub no_preflight: bool,
    /// Whether nothing but the probes is run.
    pub preflight_only: bool,
    /// Whether failed probes do not stop the run.
    pub continue_on_preflight_failure: bool,
    /// The one test to run.
    pub run_single: Option<String>,
    /// The environment variable that holds the suite's state.
    pub state_env_var: Option<String>,
    /// Whether the program is only asked for what it is.
    pub rig_probe: bool,
    /// Whether the program is asked for its tests.
    pub list: bool,
    /// Accepted and ignored.
    pub format: Option<String>,
}

impl RuntimeArgs {
    /// The arguments of a program that is given none.
    pub fn none() -> (args: RuntimeArgs)
        ensures
            args.jobs is None,
            args.seed is None,
            args.filter is None,
            args.tag@.len() == 0,
            args.not_tag@.len() == 0,
            !args.no_capture,
            args.reporter is None,
            args.retries is None,
            !args.no_preflight,
            !args.preflight_only,
            !args.continue_on_preflight_failure,
            args.run_single is None,
            args.state_env_var is None,
            !args.rig_probe,
            !args.list,
            args.format is None,
    {
        RuntimeArgs {
            jobs: None,
            seed: None,
            filter: None,
            tag: Vec::new(),
            not_tag: Vec::new(),
            no_capture: false,
            reporter: None,
            retries: None,
            no_preflight: false,
            preflight_only: false,
            continue_on_preflight_failure: false,
            run_single: None,
            state_env_var: None,
            rig_probe: false,
            list: false,
            format: None,
        }
    }
}

/// What a test program does.
#[derive(Debug)]
pub enum Mode {
    /// Nothing: it was only asked for what it is, or for its tests.
    Exit,
    /// It runs that one test, with the state in that environment variable.
    Single { test: String, state_var: Option<String> },
    /// It runs the suite.
    Suite,
}

/// Whether a test program does that with its arguments, whoever started it.
pub open spec fn does(m: Mode, args: RuntimeArgs) -> bool {
    match m {
        Mode::Exit => args.rig_probe || args.list,
        Mode::Single { test, state_var } => {
            &&& !args.rig_probe && !args.list
            &&& args.run_single is Some
            &&& test@ == args.run_single->0@
            &&& state_var.deep_view() == args.state_env_var.deep_view()
        },
        Mode::Suite => !args.rig_probe && !args.list && args.run_single is None,
    }
}

/// What a test program does with its arguments, whoever started it.
pub fn mode_of(args: &RuntimeArgs) -> (m: Mode)
    ensures
        does(m, *args),
{
    if args.rig_probe || args.list {
        return Mode::Exit;
    }
    match &args.run_single {
        Some(test) => Mode::Single {
            test: test.clone(),
            state_var: match &args.state_env_var {
                Some(v) => Some(v.clone()),
                None => None,
            },
        },
        None => Mode::Suite,
    }
}

// ── laws ────────────────────────────────────────────────────────────────────

/// A program that is asked for what it is or for its tests runs none; any
/// other runs the one test that is named, with the state in the variable that
/// is named, and the suite exactly where none is.
pub proof fn law_what_a_program_does(m: Mode, args: RuntimeArgs)
    requires
        does(m, args),
    ensures
        args.rig_probe || args.list <==> m is Exit,
        m is Suite <==> !(args.rig_probe || args.list) && args.run_single is None,
        m matches Mode::Single { test, state_var } ==> {
            &&& args.run_single matches Some(t) && test@ == t@
            &&& match (state_var, args.state_env_var) {
                (Some(a), Some(b)) => a@ == b@,
                (None, None) => true,
                _ => false,
            }
        },
{
}

} // verus!
