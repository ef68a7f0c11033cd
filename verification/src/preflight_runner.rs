//! What comes of the probes: the outcome of each, the lines that report them,
//! and whether the run goes on.

use crate::duration;
use crate::duration::Duration;
use crate::preflight;
use crate::preflight::{ExpectStatus, Probe, ProbeKind};
use crate::reporter;
use crate::text;
use vstd::prelude::*;
use vstd::string::*;

verus! {

/// The outcome of a probe.
#[derive(Debug)]
pub enum ProbeOutcome {
    Passed,
    /// It failed, for that reason.
    Failed(String),
}

pub enum ProbeOutcomeV {
    Passed,
    Failed(Seq<char>),
}

impl DeepView for ProbeOutcome {
    type V = ProbeOutcomeV;

    open spec fn deep_view(&self) -> ProbeOutcomeV {
        match self {
            ProbeOutcome::Passed => ProbeOutcomeV::Passed,
            ProbeOutcome::Failed(reason) => ProbeOutcomeV::Failed(reason@),
        }
    }
}

/// A probe that was run: the name under which it is reported, its outcome, and
/// how long it took.
#[derive(Debug)]
pub struct ProbeResult {
    pub name: String,
    pub outcome: ProbeOutcome,
    pub elapsed: Duration,
}

pub struct ProbeResultV {
    pub name: Seq<char>,
    pub outcome: ProbeOutcomeV,
    pub elapsed: Duration,
}

impl DeepView for ProbeResult {
    type V = ProbeResultV;

    open spec fn deep_view(&self) -> ProbeResultV {
        ProbeResultV {
            name: self.name@,
            outcome: self.outcome.deep_view(),
            elapsed: self.elapsed,
        }
    }
}

// ── outcomes ────────────────────────────────────────────────────────────────

/// What a probe does, as its timeout is reported.
pub open spec fn action_text(kind: preflight::ProbeKindV) -> Seq<char> {
    match kind {
        preflight::ProbeKindV::Tcp { target } => "connect to "@ + target,
        preflight::ProbeKindV::Env { var, expected } => "env "@ + var,
        preflight::ProbeKindV::Dns { host } => "resolving "@ + host,
        preflight::ProbeKindV::Http { url, expect } => "GET "@ + url,
        preflight::ProbeKindV::Ssh { dest, command } => "ssh "@ + dest,
        preflight::ProbeKindV::Custom { handle } => "custom probe"@,
    }
}

/// What a probe does, as its timeout is reported.
pub fn probe_kind_label(kind: &ProbeKind) -> (s: String)
    ensures
        s@ == action_text(kind.deep_view()),
{
    let (action, target) = match kind {
        ProbeKind::Tcp { target } => ("connect to ", target),
        ProbeKind::Env { var, .. } => ("env ", var),
        ProbeKind::Dns { host } => ("resolving ", host),
        ProbeKind::Http { url, .. } => ("GET ", url),
        ProbeKind::Ssh { dest, .. } => ("ssh ", dest),
        ProbeKind::Custom { .. } => return "custom probe".to_owned(),
    };
    let mut s = action.to_owned();
    s.append(target);
    s
}

/// The outcome of a probe that did not end within its timeout.
pub open spec fn timeout_result(kind: preflight::ProbeKindV, timeout: Duration) -> ProbeOutcomeV {
    ProbeOutcomeV::Failed(
        action_text(kind) + " timed out after "@ + duration::seconds_text(timeout@, 3) + "s"@,
    )
}

/// The outcome of a probe that did not end within its timeout.
pub fn timeout_outcome(kind: &ProbeKind, timeout: Duration) -> (r: ProbeOutcome)
    ensures
        r.deep_view() == timeout_result(kind.deep_view(), timeout),
{
    let mut s = probe_kind_label(kind);
    s.append(" timed out after ");
    s.append(&timeout.seconds(3));
    s.append("s");
    ProbeOutcome::Failed(s)
}

/// The outcome of a TCP probe.
pub open spec fn tcp_result(target: Seq<char>, connected: Result<(), String>) -> ProbeOutcomeV {
    match connected {
        Ok(()) => ProbeOutcomeV::Passed,
        Err(e) => ProbeOutcomeV::Failed("connect to "@ + target + " failed: "@ + e@),
    }
}

/// The outcome of a TCP probe, given what connecting came to.
pub fn tcp_outcome(target: &str, connected: Result<(), String>) -> (r: ProbeOutcome)
    ensures
        r.deep_view() == tcp_result(target@, connected),
{
    match connected {
        Ok(()) => ProbeOutcome::Passed,
        Err(e) => {
            let mut s = "connect to ".to_owned();
            s.append(target);
            s.append(" failed: ");
            s.append(&e);
            ProbeOutcome::Failed(s)
        },
    }
}

/// What an environment variable holds.
#[derive(Debug)]
pub enum EnvValue {
    /// It is not set.
    NotPresent,
    /// It is set to something that is no text.
    NotUnicode,
    /// It is set to that.
    Is(String),
}

/// The outcome of an environment probe.
pub open spec fn env_result(
    var: Seq<char>,
    value: EnvValue,
    expected: Option<Seq<char>>,
) -> ProbeOutcomeV {
    match value {
        EnvValue::NotPresent => ProbeOutcomeV::Failed(var + " is not set"@),
        EnvValue::NotUnicode => ProbeOutcomeV::Failed(var + " is set but is not valid UTF-8"@),
        EnvValue::Is(actual) => match expected {
            Some(want) => if actual@ == want {
                ProbeOutcomeV::Passed
            } else {
                ProbeOutcomeV::Failed(
                    var + "="@ + text::quoted(actual@) + " does not equal expected "@
                        + text::quoted(want),
                )
            },
            None => if actual@.len() == 0 {
                ProbeOutcomeV::Failed(var + " is set but empty"@)
            } else {
                ProbeOutcomeV::Passed
            },
        },
    }
}

/// The outcome of an environment probe, given what the variable holds.
pub fn run_env(var: &str, value: &EnvValue, expected: Option<&str>) -> (r: ProbeOutcome)
    ensures
        r.deep_view() == env_result(var@, *value, expected.deep_view()),
{
    let mut s = var.to_owned();
    match value {
        EnvValue::NotPresent => {
            s.append(" is not set");
            ProbeOutcome::Failed(s)
        },
        EnvValue::NotUnicode => {
            s.append(" is set but is not valid UTF-8");
            ProbeOutcome::Failed(s)
        },
        EnvValue::Is(actual) => match expected {
            Some(want) => if text::same(actual, want) {
                ProbeOutcome::Passed
            } else {
                s.append("=");
                s.append(&text::quote(actual));
                s.append(" does not equal expected ");
                s.append(&text::quote(want));
                ProbeOutcome::Failed(s)
            },
            None => if actual.as_str().unicode_len() == 0 {
                s.append(" is set but empty");
                ProbeOutcome::Failed(s)
            } else {
                ProbeOutcome::Passed
            },
        },
    }
}

/// The name under which the resolver is asked for `host`.
pub open spec fn query_text(host: Seq<char>) -> Seq<char> {
    host + ":0"@
}

/// The name under which the resolver is asked for `host`.
pub fn dns_query(host: &str) -> (s: String)
    ensures
        s@ == query_text(host@),
{
    let mut s = host.to_owned();
    s.append(":0");
    s
}

/// The outcome of a DNS probe.
pub open spec fn dns_result(host: Seq<char>, resolved: Result<bool, String>) -> ProbeOutcomeV {
    match resolved {
        Ok(true) => ProbeOutcomeV::Passed,
        Ok(false) => ProbeOutcomeV::Failed(host + " resolved to no addresses"@),
        Err(e) => ProbeOutcomeV::Failed("resolving "@ + host + " failed: "@ + e@),
    }
}

/// The outcome of a DNS probe, given whether the resolver gave any address.
pub fn dns_outcome(host: &str, resolved: Result<bool, String>) -> (r: ProbeOutcome)
    ensures
        r.deep_view() == dns_result(host@, resolved),
{
    match resolved {
        Ok(any) => if any {
            ProbeOutcome::Passed
        } else {
            let mut s = host.to_owned();
            s.append(" resolved to no addresses");
            ProbeOutcome::Failed(s)
        },
        Err(e) => {
            let mut s = "resolving ".to_owned();
            s.append(host);
            s.append(" failed: ");
            s.append(&e);
            ProbeOutcome::Failed(s)
        },
    }
}

/// What an HTTP request came to.
#[derive(Debug)]
pub enum HttpReply {
    /// The suite's configuration of the client failed.
    ConfiguratorFailed(String),
    /// The client could not be made.
    ClientFailed(String),
    /// The request failed.
    RequestFailed(String),
    /// It was answered with that status.
    Status(u16),
}

/// The outcome of an HTTP probe.
pub open spec fn http_result(url: Seq<char>, expect: ExpectStatus, reply: HttpReply) -> ProbeOutcomeV {
    match reply {
        HttpReply::ConfiguratorFailed(e) => ProbeOutcomeV::Failed("configurator failed: "@ + e@),
        HttpReply::ClientFailed(e) => ProbeOutcomeV::Failed("building http client failed: "@ + e@),
        HttpReply::RequestFailed(e) => ProbeOutcomeV::Failed("GET "@ + url + " failed: "@ + e@),
        HttpReply::Status(status) => if expect.accepts(status) {
            ProbeOutcomeV::Passed
        } else {
            ProbeOutcomeV::Failed(
                "GET "@ + url + " returned "@ + text::decimal(status as nat) + " (expected "@
                    + expect.text() + ")"@,
            )
        },
    }
}

/// The outcome of an HTTP probe, given what the request came to.
pub fn http_outcome(url: &str, expect: &ExpectStatus, reply: HttpReply) -> (r: ProbeOutcome)
    ensures
        r.deep_view() == http_result(url@, *expect, reply),
{
    match reply {
        HttpReply::ConfiguratorFailed(e) => {
            let mut s = "configurator failed: ".to_owned();
            s.append(&e);
            ProbeOutcome::Failed(s)
        },
        HttpReply::ClientFailed(e) => {
            let mut s = "building http client failed: ".to_owned();
            s.append(&e);
            ProbeOutcome::Failed(s)
        },
        HttpReply::RequestFailed(e) => {
            let mut s = "GET ".to_owned();
            s.append(url);
            s.append(" failed: ");
            s.append(&e);
            ProbeOutcome::Failed(s)
        },
        HttpReply::Status(status) => if expect.matches(status) {
            ProbeOutcome::Passed
        } else {
            let mut s = "GET ".to_owned();
            s.append(url);
            s.append(" returned ");
            s.append(&text::number(status as u128));
            s.append(" (expected ");
            s.append(&expect.render());
            s.append(")");
            ProbeOutcome::Failed(s)
        },
    }
}

/// What running a remote command came to.
#[derive(Debug)]
pub enum SshReply {
    /// The suite's configuration of the session failed.
    ConfiguratorFailed(String),
    /// The session could not be made.
    ConnectFailed(String),
    /// The command could not be run.
    CommandFailed(String),
    /// The command ended, with that status.
    Exited { success: bool, status: String },
}

/// The outcome of an SSH probe.
pub open spec fn ssh_result(dest: Seq<char>, command: Seq<char>, reply: SshReply) -> ProbeOutcomeV {
    match reply {
        SshReply::ConfiguratorFailed(e) => ProbeOutcomeV::Failed("configurator failed: "@ + e@),
        SshReply::ConnectFailed(e) => ProbeOutcomeV::Failed(
            "ssh "@ + dest + ": connect failed: "@ + e@,
        ),
        SshReply::CommandFailed(e) => ProbeOutcomeV::Failed(
            "ssh "@ + dest + ": running "@ + text::quoted(command) + " failed: "@ + e@,
        ),
        SshReply::Exited { success, status } => if success {
            ProbeOutcomeV::Passed
        } else {
            ProbeOutcomeV::Failed(
                "ssh "@ + dest + ": remote command "@ + text::quoted(command) + " exited with "@
                    + status@,
            )
        },
    }
}

/// The outcome of an SSH probe, given what running the command came to.
pub fn ssh_outcome(dest: &str, command: &str, reply: SshReply) -> (r: ProbeOutcome)
    ensures
        r.deep_view() == ssh_result(dest@, command@, reply),
{
    match reply {
        SshReply::ConfiguratorFailed(e) => {
            let mut s = "configurator failed: ".to_owned();
            s.append(&e);
            ProbeOutcome::Failed(s)
        },
        SshReply::ConnectFailed(e) => {
            let mut s = "ssh ".to_owned();
            s.append(dest);
            s.append(": connect failed: ");
            s.append(&e);
            ProbeOutcome::Failed(s)
        },
        SshReply::CommandFailed(e) => {
            let mut s = "ssh ".to_owned();
            s.append(dest);
            s.append(": running ");
            s.append(&text::quote(command));
            s.append(" failed: ");
            s.append(&e);
            ProbeOutcome::Failed(s)
        },
        SshReply::Exited { success, status } => if success {
            ProbeOutcome::Passed
        } else {
            let mut s = "ssh ".to_owned();
            s.append(dest);
            s.append(": remote command ");
            s.append(&text::quote(command));
            s.append(" exited with ");
            s.append(&status);
            ProbeOutcome::Failed(s)
        },
    }
}

/// The outcome of a probe of the suite's own.
pub open spec fn custom_result(result: Result<(), String>) -> ProbeOutcomeV {
    match result {
        Ok(()) => ProbeOutcomeV::Passed,
        Err(e) => ProbeOutcomeV::Failed(e@),
    }
}

/// The outcome of a probe of the suite's own.
pub fn custom_outcome(result: Result<(), String>) -> (r: ProbeOutcome)
    ensures
        r.deep_view() == custom_result(result),
{
    match result {
        Ok(()) => ProbeOutcome::Passed,
        Err(e) => ProbeOutcome::Failed(e),
    }
}

// ── lines ───────────────────────────────────────────────────────────────────

/// The line of a probe.
pub open spec fn probe_line(r: ProbeResultV, colors: bool) -> Seq<char> {
    match r.outcome {
        ProbeOutcomeV::Passed => reporter::timed(
            reporter::painted("PASS"@, "green.bold"@, colors),
            r.elapsed,
            r.name,
        ),
        ProbeOutcomeV::Failed(reason) => reporter::timed(
            reporter::painted("FAIL"@, "red.bold"@, colors),
            r.elapsed,
            r.name,
        ) + ": "@ + reason,
    }
}

/// The line of a probe.
pub fn render_probe_line(r: &ProbeResult, colors: bool) -> (s: String)
    ensures
        s@ == probe_line(r.deep_view(), colors),
{
    match &r.outcome {
        ProbeOutcome::Passed => reporter::timed_line(
            &reporter::paint("PASS", "green.bold", colors),
            r.elapsed,
            &r.name,
        ),
        ProbeOutcome::Failed(reason) => {
            let mut s = reporter::timed_line(
                &reporter::paint("FAIL", "red.bold", colors),
                r.elapsed,
                &r.name,
            );
            s.append(": ");
            s.append(reason);
            s
        },
    }
}

/// The number of probes that failed among the first `n`.
pub open spec fn failed_among(results: Seq<ProbeResultV>, n: int) -> int
    decreases n,
{
    if n <= 0 {
        0
    } else {
        failed_among(results, n - 1) + if results[n - 1].outcome is Failed {
            1int
        } else {
            0
        }
    }
}

/// The number of probes that failed.
pub open spec fn failed_in(results: Seq<ProbeResultV>) -> int {
    failed_among(results, results.len() as int)
}

/// The number of probes that failed.
pub fn count_failed(results: &[ProbeResult]) -> (n: usize)
    ensures
        n == failed_in(results.deep_view()),
        n <= results@.len(),
{
    let ghost all = results.deep_view();
    let mut n: usize = 0;
    let mut i: usize = 0;
    while i < results.len()
        invariant
            i <= results@.len(),
            n <= i,
            all == results.deep_view(),
            n == failed_among(all, i as int),
        decreases results@.len() - i,
    {
        assert(all[i as int] == results@[i as int].deep_view());
        if let ProbeOutcome::Failed(_) = &results[i].outcome {
            n += 1;
        }
        i += 1;
    }
    n
}

/// The lines of the readiness table: each probe, in the order in which they
/// were declared, between two rules.
pub open spec fn table_lines(results: Seq<ProbeResultV>, colors: bool) -> Seq<Seq<char>> {
    let rule = reporter::painted(text::repeated('─', 60), "dim"@, colors);
    seq![rule, "preflight readiness:"@] + results.map_values(
        |r: ProbeResultV| "  "@ + probe_line(r, colors),
    ) + seq![rule]
}

/// The lines at the end of the probes: their number where all passed, else
/// the readiness table.
pub open spec fn closing_lines(
    results: Seq<ProbeResultV>,
    elapsed: Duration,
    colors: bool,
) -> Seq<Seq<char>> {
    if results.len() == 0 {
        seq!["preflight result: 0 passed"@]
    } else if failed_in(results) == 0 {
        seq![
            "preflight result: "@ + text::decimal(results.len()) + " passed ["@
                + duration::seconds_text(elapsed@, 2) + "s]"@,
        ]
    } else {
        table_lines(results, colors)
    }
}

fn render_readiness_table(results: &[ProbeResult], colors: bool) -> (lines: Vec<String>)
    ensures
        lines.deep_view() == table_lines(results.deep_view(), colors),
{
    let ghost all = results.deep_view();
    let rule = reporter::paint(&text::repeat('─', 60), "dim", colors);
    let mut lines: Vec<String> = Vec::new();
    lines.push(rule.clone());
    lines.push("preflight readiness:".to_owned());
    let ghost head = lines.deep_view();
    let mut i: usize = 0;
    while i < results.len()
        invariant
            i <= results@.len(),
            all == results.deep_view(),
            lines@.len() == i + 2,
            lines@[0]@ == rule@,
            lines@[1]@ == "preflight readiness:"@,
            forall|k: int|
                0 <= k < i ==> (#[trigger] lines@[k + 2])@ == "  "@ + probe_line(all[k], colors),
        decreases results@.len() - i,
    {
        assert(all[i as int] == results@[i as int].deep_view());
        let mut line = "  ".to_owned();
        line.append(&render_probe_line(&results[i], colors));
        lines.push(line);
        i += 1;
    }
    lines.push(rule);
    proof {
        let want = table_lines(all, colors);
        assert forall|k: int| 0 <= k < want.len() implies lines.deep_view()[k] == want[k] by {
            if 2 <= k < want.len() - 1 {
                assert(lines@[(k - 2) + 2]@ == "  "@ + probe_line(all[k - 2], colors));
            }
        }
        assert(lines.deep_view() =~= want);
    }
    lines
}

/// The lines at the end of the probes.
pub fn render_closing_lines(results: &[ProbeResult], elapsed: Duration, colors: bool) -> (lines: Vec<
    String,
>)
    ensures
        lines.deep_view() == closing_lines(results.deep_view(), elapsed, colors),
{
    let mut lines: Vec<String> = Vec::new();
    if results.len() == 0 {
        lines.push("preflight result: 0 passed".to_owned());
    } else if count_failed(results) == 0 {
        let mut s = "preflight result: ".to_owned();
        s.append(&text::number(results.len() as u128));
        s.append(" passed [");
        s.append(&elapsed.seconds(2));
        s.append("s]");
        lines.push(s);
    } else {
        return render_readiness_table(results, colors);
    }
    assert(lines.deep_view() =~= closing_lines(results.deep_view(), elapsed, colors));
    lines
}

// ── what came of the probes ─────────────────────────────────────────────────

/// What came of the probes as a whole.
#[derive(Clone, Copy, Debug, PartialEq, Eq, Structural)]
pub struct PreflightVerdict {
    /// Whether the suite declares any.
    pub declared: bool,
    /// Whether none failed.
    pub passed: bool,
    /// How many failed.
    pub failed_count: usize,
}

impl PreflightVerdict {
    /// Whether this is what came of declared probes with those results.
    pub open spec fn sums_up(self, results: Seq<ProbeResultV>) -> bool {
        &&& self.declared
        &&& self.passed == (failed_in(results) == 0)
        &&& self.failed_count == failed_in(results)
    }
}

/// What came of the probes.
#[derive(Debug)]
pub struct PreflightReport {
    pub verdict: PreflightVerdict,
    pub results: Vec<ProbeResult>,
}

impl PreflightReport {
    /// The report of a suite that declares no probes, or does not run them.
    pub fn none() -> (r: PreflightReport)
        ensures
            r.verdict == (PreflightVerdict { declared: false, passed: true, failed_count: 0 }),
            r.results@.len() == 0,
    {
        PreflightReport {
            verdict: PreflightVerdict { declared: false, passed: true, failed_count: 0 },
            results: Vec::new(),
        }
    }

    /// The report of a suite whose probes came to `results`.
    pub fn of(results: Vec<ProbeResult>) -> (r: PreflightReport)
        ensures
            r.results == results,
            r.verdict.sums_up(results.deep_view()),
    {
        let slice = results.as_slice();
        assert(slice.deep_view() =~= results.deep_view());
        let failed_count = count_failed(slice);
        PreflightReport {
            verdict: PreflightVerdict { declared: true, passed: failed_count == 0, failed_count },
            results,
        }
    }
}

// ── the phase as a whole ────────────────────────────────────────────────────

/// The name of the profile under which the probes are declared, given what the
/// environment says of it.
pub fn active_profile_name(value: Option<String>) -> (name: String)
    ensures
        name@ == match value {
            Some(v) => v@,
            None => seq![],
        },
{
    match value {
        Some(v) => v,
        None => String::new(),
    }
}

/// What is done for the probes of a suite, first of all.
#[derive(Debug)]
pub enum PreflightStep {
    /// Print those lines, then run the probes under those names, all at a
    /// time.
    Run { lines: Vec<String>, names: Vec<String> },
    /// Print those lines. No probe is run, and this is what came of the phase.
    Done { lines: Vec<String>, report: Result<PreflightReport, String> },
}

/// Whether `step` is what is done first of all: nothing where no probes are
/// declared; otherwise the phase is announced, and the probes are run unless
/// there are none, or one whose name nothing tells from another one's.
pub open spec fn starts_with(
    probes: Option<Seq<preflight::ProbeV>>,
    colors: bool,
    step: PreflightStep,
) -> bool {
    let header = reporter::phase_line("preflight"@, colors);
    match step {
        PreflightStep::Run { lines, names } => {
            &&& probes matches Some(declared)
            &&& declared.len() > 0
            &&& preflight::names_of(Ok(names), declared)
            &&& lines.deep_view() == seq![header]
        },
        PreflightStep::Done { lines, report: Err(e) } => {
            &&& probes matches Some(declared)
            &&& preflight::names_of(Err(e), declared)
            &&& lines.deep_view() == seq![header]
        },
        PreflightStep::Done { lines, report: Ok(report) } => {
            &&& report.results@.len() == 0
            &&& match probes {
                Some(declared) => {
                    &&& declared.len() == 0
                    &&& report.verdict.sums_up(seq![])
                    &&& lines.deep_view() == seq![header, "preflight result: 0 passed"@]
                },
                None => {
                    &&& report.verdict == (PreflightVerdict {
                        declared: false,
                        passed: true,
                        failed_count: 0,
                    })
                    &&& lines@.len() == 0
                },
            }
        },
    }
}

/// What is done for the probes of a suite, first of all.
pub fn start_preflight(probes: Option<&[Probe]>, colors: bool) -> (step: PreflightStep)
    ensures
        starts_with(
            match probes {
                Some(declared) => Some(declared.deep_view()),
                None => None,
            },
            colors,
            step,
        ),
{
    let declared = match probes {
        Some(declared) => declared,
        None => return PreflightStep::Done {
            lines: Vec::new(),
            report: Ok(PreflightReport::none()),
        },
    };
    let mut lines: Vec<String> = Vec::new();
    lines.push(reporter::render_phase("preflight", colors));
    assert(lines.deep_view() =~= seq![reporter::phase_line("preflight"@, colors)]);
    if declared.len() == 0 {
        lines.push("preflight result: 0 passed".to_owned());
        assert(lines.deep_view() =~= seq![
            reporter::phase_line("preflight"@, colors),
            "preflight result: 0 passed"@,
        ]);
        let report = PreflightReport::of(Vec::new());
        assert(report.results.deep_view() =~= seq![]);
        return PreflightStep::Done { lines, report: Ok(report) };
    }
    match preflight::resolve_names(declared) {
        Ok(names) => PreflightStep::Run { lines, names },
        Err(e) => PreflightStep::Done { lines, report: Err(e) },
    }
}

/// What is shown of a probe while it runs.
pub fn render_running(name: &str, colors: bool) -> (s: String)
    ensures
        s@ == reporter::painted("RUNNING"@, "cyan.bold"@, colors) + " "@ + name@,
{
    let mut s = reporter::paint("RUNNING", "cyan.bold", colors);
    s.append(" ");
    s.append(name);
    s
}

/// How long a probe may take, where that is limited. A look at the environment
/// takes no time.
pub open spec fn limit_of(probe: Probe) -> Option<Duration> {
    match probe.kind {
        ProbeKind::Env { .. } => None,
        _ => probe.timeout,
    }
}

/// How long a probe may take, where that is limited.
pub fn deadline(probe: &Probe) -> (d: Option<Duration>)
    ensures
        d == limit_of(*probe),
{
    match &probe.kind {
        ProbeKind::Env { .. } => None,
        _ => probe.timeout,
    }
}

/// The lines at the end of the probes, and what came of the phase.
pub fn finish_preflight(results: Vec<ProbeResult>, elapsed: Duration, colors: bool) -> (r: (
    Vec<String>,
    PreflightReport,
))
    ensures
        r.0.deep_view() == closing_lines(results.deep_view(), elapsed, colors),
        r.1.results == results,
        r.1.verdict.sums_up(results.deep_view()),
{
    let slice = results.as_slice();
    assert(slice.deep_view() =~= results.deep_view());
    let lines = render_closing_lines(slice, elapsed, colors);
    (lines, PreflightReport::of(results))
}

// ── whether the run goes on ─────────────────────────────────────────────────

/// Why a suite with that many tests stops before them.
pub open spec fn abort_text(failed_count: nat, tests_total: nat) -> Seq<char> {
    text::decimal(failed_count) + " probe"@ + (if failed_count == 1 {
        ""@
    } else {
        "s"@
    }) + " failed — aborting suite ("@ + text::decimal(tests_total) + " tests not run)"@
}

/// Why a suite with that many tests stops before them.
pub fn format_abort_message(failed_count: usize, tests_total: usize) -> (s: String)
    ensures
        s@ == abort_text(failed_count as nat, tests_total as nat),
{
    let mut s = text::number(failed_count as u128);
    s.append(" probe");
    s.append(
        if failed_count == 1 {
            ""
        } else {
            "s"
        },
    );
    s.append(" failed — aborting suite (");
    s.append(&text::number(tests_total as u128));
    s.append(" tests not run)");
    s
}

/// Whether a run goes on to its tests.
#[derive(Debug)]
pub enum ControlFlow {
    Continue,
    /// It does not, for that reason.
    Abort(String),
}

/// Whether a run goes on to its tests after its probes: unless one failed and
/// failures are not to be passed over.
pub open spec fn goes_on(
    r: ControlFlow,
    verdict: PreflightVerdict,
    continue_on_failure: bool,
    tests_total: nat,
) -> bool {
    match r {
        ControlFlow::Continue => verdict.passed || continue_on_failure,
        ControlFlow::Abort(reason) => !verdict.passed && !continue_on_failure && reason@
            == abort_text(verdict.failed_count as nat, tests_total),
    }
}

/// Whether a run goes on to its tests after its probes.
pub fn after_preflight(
    verdict: &PreflightVerdict,
    continue_on_failure: bool,
    tests_total: usize,
) -> (r: ControlFlow)
    ensures
        goes_on(r, *verdict, continue_on_failure, tests_total as nat),
{
    if !verdict.passed && !continue_on_failure {
        ControlFlow::Abort(format_abort_message(verdict.failed_count, tests_total))
    } else {
        ControlFlow::Continue
    }
}

/// Whether the results of the probes are recorded.
pub fn records_preflight(report: &PreflightReport) -> (r: bool)
    ensures
        r == (report.verdict.declared && report.results@.len() > 0),
{
    report.verdict.declared && report.results.len() > 0
}

// ── laws ────────────────────────────────────────────────────────────────────

proof fn lemma_failed_among(results: Seq<ProbeResultV>, n: int)
    requires
        0 <= n <= results.len(),
    ensures
        0 <= failed_among(results, n) <= n,
        failed_among(results, n) == 0 <==> forall|i: int|
            0 <= i < n ==> #[trigger] results[i].outcome is Passed,
    decreases n,
{
    if n > 0 {
        lemma_failed_among(results, n - 1);
        assert(results[n - 1].outcome is Passed <==> !(results[n - 1].outcome is Failed));
    }
}

/// No probe counts as failed exactly where each of them passed.
pub proof fn law_passed_means_every_probe(results: Seq<ProbeResultV>)
    ensures
        failed_in(results) == 0 <==> forall|i: int|
            0 <= i < results.len() ==> #[trigger] results[i].outcome is Passed,
        0 <= failed_in(results) <= results.len(),
{
    lemma_failed_among(results, results.len() as int);
}

/// The readiness table shows every probe, in the order in which they were
/// declared, whether it passed or failed.
pub proof fn law_every_probe_is_shown(results: Seq<ProbeResultV>, colors: bool, i: int)
    requires
        0 <= i < results.len(),
    ensures
        table_lines(results, colors).len() == results.len() + 3,
        table_lines(results, colors)[i + 2] == "  "@ + probe_line(results[i], colors),
{
}

proof fn lemma_stands(a: Seq<char>, b: Seq<char>, c: Seq<char>)
    ensures
        text::contains(a + b + c, b),
{
    assert(b.subrange(0, b.len() as int) =~= b);
    assert(text::occurs_at(b, b, 0));
    text::lemma_contains_within(a, b, c, b);
}

/// An environment probe passes exactly where the variable holds a text that is
/// the expected one, or, where none is expected, not empty; and what is said
/// where it fails begins with the variable.
pub proof fn law_env_probe(var: Seq<char>, value: EnvValue, expected: Option<Seq<char>>)
    ensures
        env_result(var, value, expected) is Passed <==> (value matches EnvValue::Is(actual)
            && match expected {
            Some(want) => actual@ == want,
            None => actual@.len() > 0,
        }),
        env_result(var, value, expected) matches ProbeOutcomeV::Failed(s) ==> var.is_prefix_of(s),
        value matches EnvValue::Is(actual) ==> expected matches Some(want) ==> actual@ != want ==> {
            let s = env_result(var, value, expected)->Failed_0;
            &&& text::contains(s, text::quoted(actual@))
            &&& text::contains(s, text::quoted(want))
        },
{
    if let ProbeOutcomeV::Failed(s) = env_result(var, value, expected) {
        assert(s.take(var.len() as int) =~= var);
    }
    if let EnvValue::Is(actual) = value {
        if let Some(want) = expected {
            let none: Seq<char> = seq![];
            let x = text::quoted(actual@);
            let y = text::quoted(want);
            let mid = " does not equal expected "@;
            lemma_stands(var + "="@, x, mid + y);
            assert(var + "="@ + x + (mid + y) =~= var + "="@ + x + mid + y);
            lemma_stands(var + "="@ + x + mid, y, none);
            assert(var + "="@ + x + mid + y + none =~= var + "="@ + x + mid + y);
        }
    }
}

/// An HTTP probe passes exactly where the request is answered with a status
/// that is accepted: the one that is given, or any between two that are given,
/// both included. Where it is answered with another one, what is said tells
/// the URL, that status, and what was accepted; where it is not answered, why.
pub proof fn law_http_probe(
    url: Seq<char>,
    expect: ExpectStatus,
    reply: HttpReply,
    status: u16,
)
    ensures
        http_result(url, expect, reply) is Passed <==> (reply matches HttpReply::Status(s)
            && match expect {
            ExpectStatus::Exact(x) => x <= s && s <= x,
            ExpectStatus::Range { first, last } => !(s < first || last < s),
        }),
        http_result(url, expect, HttpReply::Status(status)) matches ProbeOutcomeV::Failed(s) ==> {
            &&& text::contains(s, url)
            &&& text::contains(s, text::decimal(status as nat))
            &&& text::contains(s, expect.text())
        },
        reply matches HttpReply::RequestFailed(e) ==> text::contains(
            http_result(url, expect, reply)->Failed_0,
            e@,
        ) && text::contains(http_result(url, expect, reply)->Failed_0, url),
        reply matches HttpReply::ClientFailed(e) ==> text::contains(
            http_result(url, expect, reply)->Failed_0,
            e@,
        ),
        reply matches HttpReply::ConfiguratorFailed(e) ==> text::contains(
            http_result(url, expect, reply)->Failed_0,
            e@,
        ),
{
    let none: Seq<char> = seq![];
    let n = text::decimal(status as nat);
    let x = expect.text();
    let whole = "GET "@ + url + " returned "@ + n + " (expected "@ + x + ")"@;
    lemma_stands("GET "@, url, " returned "@ + n + " (expected "@ + x + ")"@);
    assert("GET "@ + url + (" returned "@ + n + " (expected "@ + x + ")"@) =~= whole);
    lemma_stands("GET "@ + url + " returned "@, n, " (expected "@ + x + ")"@);
    assert("GET "@ + url + " returned "@ + n + (" (expected "@ + x + ")"@) =~= whole);
    lemma_stands("GET "@ + url + " returned "@ + n + " (expected "@, x, ")"@);
    match reply {
        HttpReply::RequestFailed(e) => {
            let s = "GET "@ + url + " failed: "@ + e@;
            lemma_stands("GET "@ + url + " failed: "@, e@, none);
            assert(s + none =~= s);
            lemma_stands("GET "@, url, " failed: "@ + e@);
            assert("GET "@ + url + (" failed: "@ + e@) =~= s);
        },
        HttpReply::ClientFailed(e) => {
            let head = "building http client failed: "@;
            lemma_stands(head, e@, none);
            assert(head + e@ + none =~= head + e@);
        },
        HttpReply::ConfiguratorFailed(e) => {
            let head = "configurator failed: "@;
            lemma_stands(head, e@, none);
            assert(head + e@ + none =~= head + e@);
        },
        _ => {},
    }
}

/// What is said of an accepted status tells two of them apart.
pub proof fn law_accepted_status_is_told(a: u16, b: u16)
    ensures
        ExpectStatus::Exact(a).text() == ExpectStatus::Exact(b).text() ==> a == b,
        text::contains(
            (ExpectStatus::Range { first: a, last: b }).text(),
            ExpectStatus::Exact(a).text(),
        ),
        ExpectStatus::Exact(a).text().is_prefix_of(
            (ExpectStatus::Range { first: a, last: b }).text(),
        ),
        text::contains(
            (ExpectStatus::Range { first: a, last: b }).text(),
            ExpectStatus::Exact(b).text(),
        ),
{
    let none: Seq<char> = seq![];
    let x = text::decimal(a as nat);
    let y = text::decimal(b as nat);
    text::lemma_decimal(a as nat);
    text::lemma_decimal(b as nat);
    lemma_stands(none, x, "..="@ + y);
    assert(none + x + ("..="@ + y) =~= x + "..="@ + y);
    lemma_stands(x + "..="@, y, none);
    assert(x + "..="@ + y + none =~= x + "..="@ + y);
    assert((x + "..="@ + y).take(x.len() as int) =~= x);
}

/// An SSH probe passes exactly where the command came to its end with success;
/// otherwise what is said tells why, and on which host unless the session was
/// not even configured.
pub proof fn law_ssh_probe(dest: Seq<char>, command: Seq<char>, reply: SshReply)
    ensures
        ssh_result(dest, command, reply) is Passed <==> (reply matches SshReply::Exited {
            success,
            status,
        } && success),
        ssh_result(dest, command, reply) matches ProbeOutcomeV::Failed(s) ==> {
            &&& !(reply is ConfiguratorFailed) ==> text::contains(s, dest)
            &&& reply is CommandFailed || reply is Exited ==> text::contains(
                s,
                text::quoted(command),
            )
            &&& text::contains(
                s,
                match reply {
                    SshReply::ConfiguratorFailed(e) => e@,
                    SshReply::ConnectFailed(e) => e@,
                    SshReply::CommandFailed(e) => e@,
                    SshReply::Exited { success, status } => status@,
                },
            )
        },
{
    let none: Seq<char> = seq![];
    let q = text::quoted(command);
    match reply {
        SshReply::ConfiguratorFailed(e) => {
            let head = "configurator failed: "@;
            lemma_stands(head, e@, none);
            assert(head + e@ + none =~= head + e@);
        },
        SshReply::ConnectFailed(e) => {
            let head = "ssh "@ + dest + ": connect failed: "@;
            lemma_stands(head, e@, none);
            assert(head + e@ + none =~= head + e@);
            lemma_stands("ssh "@, dest, ": connect failed: "@ + e@);
            assert("ssh "@ + dest + (": connect failed: "@ + e@) =~= head + e@);
        },
        SshReply::CommandFailed(e) => {
            let head = "ssh "@ + dest + ": running "@ + q + " failed: "@;
            lemma_stands(head, e@, none);
            assert(head + e@ + none =~= head + e@);
            lemma_stands("ssh "@, dest, ": running "@ + q + " failed: "@ + e@);
            assert("ssh "@ + dest + (": running "@ + q + " failed: "@ + e@) =~= head + e@);
            lemma_stands("ssh "@ + dest + ": running "@, q, " failed: "@ + e@);
            assert("ssh "@ + dest + ": running "@ + q + (" failed: "@ + e@) =~= head + e@);
        },
        SshReply::Exited { success, status } => {
            let e = status@;
            let head = "ssh "@ + dest + ": remote command "@ + q + " exited with "@;
            lemma_stands(head, e, none);
            assert(head + e + none =~= head + e);
            lemma_stands("ssh "@, dest, ": remote command "@ + q + " exited with "@ + e);
            assert("ssh "@ + dest + (": remote command "@ + q + " exited with "@ + e) =~= head + e);
            lemma_stands("ssh "@ + dest + ": remote command "@, q, " exited with "@ + e);
            assert("ssh "@ + dest + ": remote command "@ + q + (" exited with "@ + e) =~= head + e);
        },
    }
}

/// A TCP probe passes exactly where the connection is made, a DNS probe where
/// the host has an address, and a probe of the suite's own where it says so;
/// otherwise what is said tells what was tried, and why it failed.
pub proof fn law_other_probes(
    target: Seq<char>,
    connected: Result<(), String>,
    resolved: Result<bool, String>,
)
    ensures
        tcp_result(target, connected) is Passed <==> connected is Ok,
        dns_result(target, resolved) is Passed <==> resolved == Ok::<bool, String>(true),
        custom_result(connected) is Passed <==> connected is Ok,
        connected matches Err(e) ==> {
            &&& text::contains(tcp_result(target, connected)->Failed_0, target)
            &&& text::contains(tcp_result(target, connected)->Failed_0, e@)
            &&& custom_result(connected)->Failed_0 == e@
        },
        dns_result(target, resolved) matches ProbeOutcomeV::Failed(s) ==> text::contains(s, target),
        resolved matches Err(e) ==> text::contains(dns_result(target, resolved)->Failed_0, e@),
{
    let none: Seq<char> = seq![];
    if let Err(e) = connected {
        lemma_stands("connect to "@ + target + " failed: "@, e@, none);
        assert("connect to "@ + target + " failed: "@ + e@ + none =~= "connect to "@ + target
            + " failed: "@ + e@);
        lemma_stands("connect to "@, target, " failed: "@ + e@);
        assert("connect to "@ + target + (" failed: "@ + e@) =~= "connect to "@ + target
            + " failed: "@ + e@);
    }
    match resolved {
        Err(e) => {
            lemma_stands("resolving "@ + target + " failed: "@, e@, none);
            assert("resolving "@ + target + " failed: "@ + e@ + none =~= "resolving "@ + target
                + " failed: "@ + e@);
            lemma_stands("resolving "@, target, " failed: "@ + e@);
            assert("resolving "@ + target + (" failed: "@ + e@) =~= "resolving "@ + target
                + " failed: "@ + e@);
        },
        Ok(any) => {
            lemma_stands(none, target, " resolved to no addresses"@);
            assert(none + target + " resolved to no addresses"@ =~= target
                + " resolved to no addresses"@);
        },
    }
}

/// A probe that takes longer than its timeout fails, and what is said tells its
/// target and the timeout; but a look at the environment has no timeout, and
/// every other probe its own.
pub proof fn law_timeouts(kind: preflight::ProbeKindV, timeout: Duration, probe: Probe)
    ensures
        timeout_result(kind, timeout) matches ProbeOutcomeV::Failed(s) && text::contains(
            s,
            duration::seconds_text(timeout@, 3),
        ) && (preflight::target_of(kind) matches Some(t) ==> text::contains(s, t)),
        probe.kind is Env ==> limit_of(probe) is None,
        !(probe.kind is Env) ==> limit_of(probe) == probe.timeout,
{
    let time = duration::seconds_text(timeout@, 3);
    let a = action_text(kind);
    let s = a + " timed out after "@ + time + "s"@;
    lemma_stands(a + " timed out after "@, time, "s"@);
    if let Some(t) = preflight::target_of(kind) {
        let rest = " timed out after "@ + time + "s"@;
        let verb = match kind {
            preflight::ProbeKindV::Tcp { target } => "connect to "@,
            preflight::ProbeKindV::Env { var, expected } => "env "@,
            preflight::ProbeKindV::Dns { host } => "resolving "@,
            preflight::ProbeKindV::Http { url, expect } => "GET "@,
            _ => "ssh "@,
        };
        lemma_stands(verb, t, rest);
        assert(verb + t + rest =~= s);
    }
}

/// The number of probes that failed is that of one part of them and of the
/// other together, and a single one counts exactly where it failed.
pub proof fn law_failed_probes_add_up(a: Seq<ProbeResultV>, b: Seq<ProbeResultV>, r: ProbeResultV)
    ensures
        failed_in(a + b) == failed_in(a) + failed_in(b),
        failed_in(seq![r]) == if r.outcome is Passed {
            0int
        } else {
            1
        },
{
    let one = seq![r];
    assert(one[0] == r);
    assert(failed_among(one, 0) == 0);
    assert(failed_among(one, 1) == failed_among(one, 0) + if one[0].outcome is Failed {
        1int
    } else {
        0
    });
    lemma_failed_first(a + b, a, a.len() as int);
    lemma_failed_rest(a, b, b.len() as int);
}

proof fn lemma_failed_first(s: Seq<ProbeResultV>, a: Seq<ProbeResultV>, n: int)
    requires
        0 <= n <= a.len() <= s.len(),
        forall|i: int| 0 <= i < a.len() ==> #[trigger] s[i] == a[i],
    ensures
        failed_among(s, n) == failed_among(a, n),
    decreases n,
{
    if n > 0 {
        lemma_failed_first(s, a, n - 1);
        assert(s[n - 1] == a[n - 1]);
    }
}

proof fn lemma_failed_rest(a: Seq<ProbeResultV>, b: Seq<ProbeResultV>, n: int)
    requires
        0 <= n <= b.len(),
    ensures
        failed_among(a + b, a.len() + n) == failed_in(a) + failed_among(b, n),
    decreases n,
{
    if n == 0 {
        lemma_failed_first(a + b, a, a.len() as int);
    } else {
        lemma_failed_rest(a, b, n - 1);
        assert((a + b)[a.len() + n - 1] == b[n - 1]);
    }
}

/// What came of the probes is that none failed exactly where each of them
/// passed; and a run goes on to its tests exactly where that is so or failures
/// are to be passed over. Where it does not, what is said begins with the
/// number of probes that failed, and tells that of the tests that are not run.
pub proof fn law_failed_probes_end_the_run(
    verdict: PreflightVerdict,
    results: Seq<ProbeResultV>,
    r: ControlFlow,
    continue_on_failure: bool,
    tests_total: nat,
)
    requires
        verdict.sums_up(results),
        goes_on(r, verdict, continue_on_failure, tests_total),
    ensures
        verdict.declared,
        verdict.passed <==> forall|i: int|
            0 <= i < results.len() ==> #[trigger] results[i].outcome is Passed,
        r is Continue <==> continue_on_failure || forall|i: int|
            0 <= i < results.len() ==> #[trigger] results[i].outcome is Passed,
        r matches ControlFlow::Abort(reason) ==> {
            &&& text::decimal(failed_in(results) as nat).is_prefix_of(reason@)
            &&& text::contains(reason@, "("@ + text::decimal(tests_total))
        },
{
    law_passed_means_every_probe(results);
    if let ControlFlow::Abort(reason) = r {
        let a = text::decimal(failed_in(results) as nat);
        let n = text::decimal(tests_total);
        let s = if failed_in(results) == 1 {
            ""@
        } else {
            "s"@
        };
        assert(reason@.take(a.len() as int) =~= a);
        reveal_strlit(" failed — aborting suite (");
        reveal_strlit(" failed — aborting suite ");
        reveal_strlit("(");
        assert(" failed — aborting suite ("@ =~= " failed — aborting suite "@ + "("@);
        let head = a + " probe"@ + s + " failed — aborting suite "@;
        lemma_stands(head, "("@ + n, " tests not run)"@);
        assert(reason@ =~= head + ("("@ + n) + " tests not run)"@);
    }
}

/// Where every probe passed, one line says how many there were; where one did
/// not, every probe is shown on a line of its own, with its name and, where it
/// failed, what was wrong, but for the first two lines and the last.
pub proof fn law_closing_lines(results: Seq<ProbeResultV>, elapsed: Duration, i: int)
    requires
        0 <= i < results.len(),
    ensures
        (forall|k: int| 0 <= k < results.len() ==> #[trigger] results[k].outcome is Passed) ==> {
            &&& closing_lines(results, elapsed, false).len() == 1
            &&& text::contains(
                closing_lines(results, elapsed, false)[0],
                text::decimal(results.len()) + " passed"@,
            )
        },
        !(forall|k: int| 0 <= k < results.len() ==> #[trigger] results[k].outcome is Passed) ==> {
            let line = closing_lines(results, elapsed, false)[i + 2];
            let head = " ["@ + duration::seconds_text(results[i].elapsed@, 3) + "s] "@
                + results[i].name;
            &&& closing_lines(results, elapsed, false).len() == results.len() + 3
            &&& results[i].outcome is Passed ==> line == "  "@ + ("PASS"@ + head)
            &&& results[i].outcome matches ProbeOutcomeV::Failed(reason) ==> line == "  "@ + (
            "FAIL"@ + head + ": "@ + reason)
        },
{
    law_passed_means_every_probe(results);
    let n = text::decimal(results.len());
    let time = duration::seconds_text(elapsed@, 2);
    reveal_strlit(" passed [");
    reveal_strlit(" passed");
    reveal_strlit(" [");
    assert(" passed ["@ =~= " passed"@ + " ["@);
    lemma_stands("preflight result: "@, n + " passed"@, " ["@ + time + "s]"@);
    assert("preflight result: "@ + (n + " passed"@) + (" ["@ + time + "s]"@)
        =~= "preflight result: "@ + n + " passed ["@ + time + "s]"@);
    law_every_probe_is_shown(results, false, i);
    let head = " ["@ + duration::seconds_text(results[i].elapsed@, 3) + "s] "@ + results[i].name;
    match results[i].outcome {
        ProbeOutcomeV::Passed => {
            assert(probe_line(results[i], false) =~= "PASS"@ + head);
        },
        ProbeOutcomeV::Failed(reason) => {
            assert(probe_line(results[i], false) =~= "FAIL"@ + head + ": "@ + reason);
        },
    }
}

/// What is said where probes stop a run speaks of one probe exactly where one
/// failed.
pub proof fn law_number_of_failed_probes(failed_count: nat, tests_total: nat)
    ensures
        failed_count == 1 ==> (text::decimal(failed_count) + " probe"@
            + " failed"@).is_prefix_of(abort_text(failed_count, tests_total)),
        failed_count != 1 ==> (text::decimal(failed_count) + " probe"@ + "s"@
            + " failed"@).is_prefix_of(abort_text(failed_count, tests_total)),
{
    let n = text::decimal(failed_count);
    reveal_strlit("");
    assert(""@ =~= seq![]);
    reveal_strlit(" failed — aborting suite (");
    reveal_strlit(" failed");
    reveal_strlit(" — aborting suite (");
    assert(" failed — aborting suite ("@ =~= " failed"@ + " — aborting suite ("@);
    let text = abort_text(failed_count, tests_total);
    let one = n + " probe"@ + " failed"@;
    let many = n + " probe"@ + "s"@ + " failed"@;
    if failed_count == 1 {
        assert(text.take(one.len() as int) =~= one);
    } else {
        assert(text.take(many.len() as int) =~= many);
    }
}

/// The probes of a suite are run exactly where it declares some and each can
/// be told from the others. Where one cannot, the run ends with an error and
/// no probe is run. Where the suite declares none, the probes have passed, and
/// nothing is said unless they were declared.
pub proof fn law_when_probes_are_run(
    probes: Option<Seq<preflight::ProbeV>>,
    colors: bool,
    step: PreflightStep,
)
    requires
        starts_with(probes, colors, step),
    ensures
        step is Run <==> (probes matches Some(declared) && declared.len() > 0 && forall|k: int|
            0 <= k < declared.len() ==> !(#[trigger] preflight::is_duplicate(declared, k))),
        step matches PreflightStep::Done { lines, report } ==> (report is Err <==> (
        probes matches Some(declared) && declared.len() > 0)),
        step matches PreflightStep::Done { lines, report: Ok(report) } ==> report.verdict.passed
            && report.verdict.failed_count == 0 && (report.verdict.declared <==> probes is Some)
            && (lines@.len() == 0 <==> probes is None),
        step matches PreflightStep::Run { lines, names } ==> names@.len() == probes->0.len(),
{
    if let PreflightStep::Done { lines, report: Ok(report) } = step {
        if probes is Some {
            assert(lines.deep_view().len() == 2);
        }
    }
}

/// The resolver is asked for the host, whatever the port: the question is the
/// host, a colon and port zero, and different hosts ask different questions.
pub proof fn law_resolver_is_asked_for_the_host(a: Seq<char>, b: Seq<char>)
    ensures
        a.is_prefix_of(query_text(a)),
        query_text(a).skip(a.len() as int) == seq![':', '0'],
        query_text(a) == query_text(b) ==> a == b,
{
    reveal_strlit(":0");
    assert(query_text(a).skip(a.len() as int) =~= seq![':', '0']);
    assert(query_text(a).take(a.len() as int) =~= a);
    assert(query_text(b).take(b.len() as int) =~= b);
    if query_text(a) == query_text(b) {
        assert(query_text(a).len() == a.len() + 2);
        assert(query_text(b).len() == b.len() + 2);
    }
}

/// The target that tells a probe from others is what the probe goes for: what
/// is said of its deadline ends in it. A custom probe goes for nothing of which
/// the library knows.
pub proof fn law_target_is_what_is_probed(kind: preflight::ProbeKindV)
    ensures
        preflight::target_of(kind) is None <==> kind is Custom,
        preflight::target_of(kind) matches Some(t) ==> t.is_suffix_of(action_text(kind)),
{
    if let Some(t) = preflight::target_of(kind) {
        let s = action_text(kind);
        assert(s.subrange(s.len() - t.len(), s.len() as int) =~= t);
    }
}

} // verus!
