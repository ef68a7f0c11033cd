//! What a test process tells the coordinator: through its exit code and what
//! it writes.

use crate::duration::Duration;
use crate::reporter::Outcome;
use crate::retry;
use crate::text;
use vstd::prelude::*;
use vstd::string::*;

verus! {

/// Exit code of a test process whose test failed.
pub const FAIL_EXIT_CODE: i32 = 1;

/// Exit code of a test process whose test was skipped.
pub const SKIP_EXIT_CODE: i32 = 2;

/// Exit code of a test process whose test failed with an error that is not
/// retried.
pub const FAIL_NOT_RETRYABLE_EXIT_CODE: i32 = 3;

/// What a skipped test writes in front of its reason.
pub open spec fn skip_prefix() -> &'static str {
    "cargo-rigtest-skip: "
}

/// What came of one run of a test process.
#[derive(Debug)]
pub enum SubprocessOutcome {
    /// The test passed.
    Passed,
    /// The test was skipped, for that reason.
    Skipped(String),
    /// The test failed.
    Failed {
        reason: String,
        stdout: String,
        stderr: String,
        /// How it failed, as far as the process tells.
        kind: Outcome,
        /// Whether the test itself allows another attempt.
        retry_eligible: bool,
    },
    /// The test was stopped after that time.
    TimedOut(Duration),
}

pub enum SubprocessOutcomeV {
    Passed,
    Skipped(Seq<char>),
    Failed {
        reason: Seq<char>,
        stdout: Seq<char>,
        stderr: Seq<char>,
        kind: Outcome,
        retry_eligible: bool,
    },
    TimedOut(Duration),
}

impl View for SubprocessOutcome {
    type V = SubprocessOutcomeV;

    open spec fn view(&self) -> SubprocessOutcomeV {
        match self {
            SubprocessOutcome::Passed => SubprocessOutcomeV::Passed,
            SubprocessOutcome::Skipped(reason) => SubprocessOutcomeV::Skipped(reason@),
            SubprocessOutcome::Failed { reason, stdout, stderr, kind, retry_eligible } =>
                SubprocessOutcomeV::Failed {
                reason: reason@,
                stdout: stdout@,
                stderr: stderr@,
                kind: *kind,
                retry_eligible: *retry_eligible,
            },
            SubprocessOutcome::TimedOut(d) => SubprocessOutcomeV::TimedOut(*d),
        }
    }
}

/// What a skipped test writes.
pub fn encode_skip(reason: &str) -> (s: String)
    ensures
        s@ == skip_prefix()@ + reason@,
{
    let mut s = "cargo-rigtest-skip: ".to_owned();
    s.append(reason);
    s
}

/// The reason in the first of the lines that gives one; nothing where none
/// does.
pub open spec fn reason_in(lines: Seq<Seq<char>>) -> Seq<char>
    decreases lines.len(),
{
    if lines.len() == 0 {
        seq![]
    } else {
        match text::after_prefix(lines[0], skip_prefix()@) {
            Some(reason) => reason,
            None => reason_in(lines.skip(1)),
        }
    }
}

/// The reason that a skipped test wrote; nothing where it wrote none.
pub fn decode_skip_reason(stderr: &str) -> (reason: String)
    ensures
        reason@ == reason_in(text::lines(stderr@)),
{
    let lines = text::lines_of(stderr);
    let ghost all = text::texts(lines@);
    let mut i: usize = 0;
    assert(all.skip(0) =~= all);
    while i < lines.len()
        invariant
            i <= lines@.len(),
            all == text::texts(lines@),
            all == text::lines(stderr@),
            reason_in(all) == reason_in(all.skip(i as int)),
        decreases lines@.len() - i,
    {
        proof {
            assert(all.skip(i as int)[0] == lines@[i as int]@);
            assert(all.skip(i as int).skip(1) =~= all.skip(i + 1));
        }
        if let Some(reason) = text::strip_prefix(&lines[i], "cargo-rigtest-skip: ") {
            return reason;
        }
        i += 1;
    }
    String::new()
}

/// Why a test failed whose process ended with that exit code.
pub open spec fn exit_reason(code: Option<i32>) -> Seq<char> {
    "exited with code "@ + text::signed_decimal(
        match code {
            Some(c) => c as int,
            None => -1,
        },
    )
}

/// Why a test failed whose process ended with that exit code, or without one.
pub fn exit_code_reason(code: Option<i32>) -> (s: String)
    ensures
        s@ == exit_reason(code),
{
    let mut s = "exited with code ".to_owned();
    s.append(
        &text::signed_number(
            match code {
                Some(c) => c,
                None => -1,
            },
        ),
    );
    s
}

/// How a test failed whose process ended with that exit code and wrote that to
/// its standard error: with a panic where that shows one. Otherwise a process
/// that ends without an exit code was killed, and one that ends with a code
/// that no test process uses did not come to its end.
pub open spec fn kind_of(exit_code: Option<i32>, stderr: Seq<char>) -> Outcome {
    if retry::failure_kind(stderr) is Panic {
        Outcome::Panic
    } else if exit_code == Some(FAIL_EXIT_CODE) || exit_code == Some(
        FAIL_NOT_RETRYABLE_EXIT_CODE,
    ) {
        Outcome::Assertion
    } else {
        Outcome::Crash
    }
}

fn classify(exit_code: Option<i32>, stderr: &str) -> (kind: Outcome)
    ensures
        kind == kind_of(exit_code, stderr@),
{
    if matches!(retry::classify_failed(stderr), Outcome::Panic) {
        return Outcome::Panic;
    }
    match exit_code {
        Some(c) => if c == FAIL_EXIT_CODE || c == FAIL_NOT_RETRYABLE_EXIT_CODE {
            Outcome::Assertion
        } else {
            Outcome::Crash
        },
        None => Outcome::Crash,
    }
}

/// What came of a test process that ended with that exit code.
pub open spec fn outcome_of(
    exit_code: Option<i32>,
    stdout: Seq<char>,
    stderr: Seq<char>,
) -> SubprocessOutcomeV {
    if exit_code == Some(0i32) {
        SubprocessOutcomeV::Passed
    } else if exit_code == Some(SKIP_EXIT_CODE) {
        SubprocessOutcomeV::Skipped(reason_in(text::lines(stderr)))
    } else {
        SubprocessOutcomeV::Failed {
            reason: exit_reason(exit_code),
            stdout,
            stderr,
            kind: kind_of(exit_code, stderr),
            retry_eligible: exit_code != Some(FAIL_NOT_RETRYABLE_EXIT_CODE),
        }
    }
}

/// What came of a test process that ended with that exit code and wrote that.
pub fn decode_outcome(exit_code: Option<i32>, stdout: String, stderr: String) -> (r:
    SubprocessOutcome)
    ensures
        r@ == outcome_of(exit_code, stdout@, stderr@),
{
    match exit_code {
        Some(c) => if c == 0 {
            return SubprocessOutcome::Passed;
        } else if c == SKIP_EXIT_CODE {
            return SubprocessOutcome::Skipped(decode_skip_reason(&stderr));
        },
        None => {},
    }
    let retry_eligible = match exit_code {
        Some(c) => c != FAIL_NOT_RETRYABLE_EXIT_CODE,
        None => true,
    };
    let kind = classify(exit_code, &stderr);
    SubprocessOutcome::Failed {
        reason: exit_code_reason(exit_code),
        stdout,
        stderr,
        kind,
        retry_eligible,
    }
}

/// What came of a test process whose output was not captured, and what of its
/// standard error is still to be shown: all of it where the test failed. How
/// the test failed is decided before its standard error is let go.
pub open spec fn uncaptured_of(exit_code: Option<i32>, stderr: Seq<char>) -> (
    SubprocessOutcomeV,
    Option<Seq<char>>,
) {
    match outcome_of(exit_code, seq![], stderr) {
        SubprocessOutcomeV::Failed { reason, stdout, stderr: shown, kind, retry_eligible } => (
            SubprocessOutcomeV::Failed {
                reason,
                stdout: seq![],
                stderr: seq![],
                kind,
                retry_eligible,
            },
            Some(stderr),
        ),
        other => (other, None),
    }
}

/// What came of a test process whose output was not captured, and what of its
/// standard error is still to be shown.
pub fn decode_uncaptured(exit_code: Option<i32>, stderr: String) -> (r: (
    SubprocessOutcome,
    Option<String>,
))
    ensures
        (r.0@, r.1.deep_view()) == uncaptured_of(exit_code, stderr@),
{
    match decode_outcome(exit_code, String::new(), stderr) {
        SubprocessOutcome::Failed { reason, stdout, stderr, kind, retry_eligible } => (
            SubprocessOutcome::Failed {
                reason,
                stdout: String::new(),
                stderr: String::new(),
                kind,
                retry_eligible,
            },
            Some(stderr),
        ),
        other => (other, None),
    }
}

/// The arguments with which a program is started to run one test.
pub fn single_args(test: &str, state_var: &str) -> (r: Vec<String>)
    ensures
        r.deep_view() == seq!["--run-single"@, test@, "--state-env-var"@, state_var@],
{
    let mut args: Vec<String> = Vec::new();
    args.push("--run-single".to_owned());
    args.push(test.to_owned());
    args.push("--state-env-var".to_owned());
    args.push(state_var.to_owned());
    assert(args.deep_view() =~= seq!["--run-single"@, test@, "--state-env-var"@, state_var@]);
    args
}

// ── laws ────────────────────────────────────────────────────────────────────

proof fn lemma_lines_concat(a: Seq<char>, b: Seq<char>)
    requires
        a.len() == 0 || a.last() == '\n',
    ensures
        text::lines(a + b) == text::lines(a) + text::lines(b),
    decreases a.len(),
{
    if a.len() == 0 {
        assert(a + b =~= b);
        assert(text::lines(a) + text::lines(b) =~= text::lines(b));
    } else {
        text::lemma_first_at(a, '\n');
        let n = text::first_at(a, '\n');
        assert(n < a.len()) by {
            if n == a.len() {
                assert(a[a.len() - 1] != '\n');
            }
        }
        let s = a + b;
        assert forall|i: int| 0 <= i < n implies s[i] != '\n' by {
            assert(s[i] == a[i]);
        }
        assert(s[n] == a[n]);
        text::lemma_first_at_is(s, '\n', n);
        let rest = a.skip(n + 1);
        assert(s.skip(n + 1) =~= rest + b);
        assert(s.take(n) =~= a.take(n));
        if rest.len() > 0 {
            assert(rest.last() == a.last());
        }
        lemma_lines_concat(rest, b);
        assert(text::lines(s) =~= text::lines(a) + text::lines(b));
    }
}

proof fn lemma_reason_in_concat(a: Seq<Seq<char>>, b: Seq<Seq<char>>)
    requires
        forall|i: int|
            0 <= i < a.len() ==> text::after_prefix(#[trigger] a[i], skip_prefix()@) is None,
    ensures
        reason_in(a + b) == reason_in(b),
    decreases a.len(),
{
    if a.len() == 0 {
        assert(a + b =~= b);
    } else {
        assert((a + b)[0] == a[0]);
        assert((a + b).skip(1) =~= a.skip(1) + b);
        assert forall|i: int| 0 <= i < a.skip(1).len() implies text::after_prefix(
            #[trigger] a.skip(1)[i],
            skip_prefix()@,
        ) is None by {
            assert(a.skip(1)[i] == a[i + 1]);
        }
        lemma_reason_in_concat(a.skip(1), b);
    }
}

/// The coordinator reads back the reason that a skipped test wrote: on a line
/// of its own, behind any lines `before` that give none, and before anything
/// else. Of a reason with several lines it reads the first, and it does not
/// read a carriage return at the end of a line.
pub proof fn law_skip_reason_read_back(before: Seq<char>, reason: Seq<char>, after: Seq<char>)
    requires
        before.len() == 0 || before.last() == '\n',
        forall|i: int|
            0 <= i < text::lines(before).len() ==> text::after_prefix(
                #[trigger] text::lines(before)[i],
                skip_prefix()@,
            ) is None,
    ensures
        ({
            let n = text::first_at(reason, '\n');
            let stderr = before + (skip_prefix()@ + reason) + seq!['\n'] + after;
            &&& n < reason.len() ==> reason_in(text::lines(stderr)) == text::without_cr(
                reason.take(n),
            )
            &&& n == reason.len() ==> reason_in(text::lines(stderr)) == text::without_cr(reason)
            &&& n == reason.len() && (reason.len() == 0 || reason.last() != '\r')
                ==> reason_in(text::lines(stderr)) == reason
        }),
{
    reveal_strlit("cargo-rigtest-skip: ");
    let p = skip_prefix()@;
    let n = text::first_at(reason, '\n');
    text::lemma_first_at(reason, '\n');
    let stderr = before + (p + reason) + seq!['\n'] + after;
    let first = if n < reason.len() {
        reason.take(n)
    } else {
        reason
    };
    let rest = if n < reason.len() {
        reason.skip(n + 1) + seq!['\n'] + after
    } else {
        after
    };
    let line = p + first + seq!['\n'];
    assert(stderr =~= before + (line + rest));
    lemma_lines_concat(before, line + rest);
    assert(line.last() == '\n');
    lemma_lines_concat(line, rest);
    assert forall|i: int| 0 <= i < p.len() + first.len() implies line[i] != '\n' by {
        if i < p.len() {
            assert(line[i] == p[i]);
        } else {
            assert(line[i] == first[i - p.len()]);
            assert(first[i - p.len()] == reason[i - p.len()]);
        }
    }
    text::lemma_first_at_is(line, '\n', (p.len() + first.len()) as int);
    assert(line.take((p.len() + first.len()) as int) =~= p + first);
    assert(line.skip((p.len() + first.len() + 1) as int) =~= seq![]);
    assert(text::lines(seq![]) =~= seq![]);
    assert(text::lines(line) =~= seq![text::without_cr(p + first)]);
    assert(text::without_cr(p + first) =~= p + text::without_cr(first)) by {
        if first.len() > 0 {
            assert((p + first).last() == first.last());
        } else {
            assert((p + first).last() == p.last());
        }
    }
    let decoded = p + text::without_cr(first);
    assert(decoded.take(p.len() as int) =~= p);
    assert(p.is_prefix_of(decoded));
    assert(decoded.skip(p.len() as int) =~= text::without_cr(first));
    lemma_reason_in_concat(text::lines(before), text::lines(line + rest));
    assert((text::lines(line) + text::lines(rest))[0] == decoded);
}

/// A test whose process ended with an exit code that is neither that of a
/// success nor that of a skip failed, with what it wrote, each as its own, and
/// with the exit code as the reason; it is not retried exactly where the code
/// says so. It panicked where its standard error shows that; otherwise it
/// returned an error where the code is one of the two for that, and crashed
/// where it is none of them.
pub proof fn law_failed_process(exit_code: Option<i32>, stdout: Seq<char>, stderr: Seq<char>)
    ensures
        ({
            let o = outcome_of(exit_code, stdout, stderr);
            &&& o is Passed <==> exit_code == Some(0i32)
            &&& o is Skipped <==> exit_code == Some(SKIP_EXIT_CODE)
            &&& !(o is TimedOut)
            &&& o matches SubprocessOutcomeV::Failed {
                reason,
                stdout: out,
                stderr: err,
                kind,
                retry_eligible,
            } ==> {
                let panicked = text::contains(stderr, "panicked at"@);
                let known = exit_code == Some(FAIL_EXIT_CODE) || exit_code == Some(
                    FAIL_NOT_RETRYABLE_EXIT_CODE,
                );
                &&& out == stdout
                &&& err == stderr
                &&& reason == exit_reason(exit_code)
                &&& retry_eligible <==> exit_code != Some(FAIL_NOT_RETRYABLE_EXIT_CODE)
                &&& kind == Outcome::Panic <==> panicked
                &&& kind == Outcome::Assertion <==> !panicked && known
                &&& kind == Outcome::Crash <==> !panicked && !known
            }
        }),
        FAIL_EXIT_CODE != 0,
        SKIP_EXIT_CODE != 0,
        FAIL_NOT_RETRYABLE_EXIT_CODE != 0,
        FAIL_EXIT_CODE != SKIP_EXIT_CODE,
        FAIL_EXIT_CODE != FAIL_NOT_RETRYABLE_EXIT_CODE,
        SKIP_EXIT_CODE != FAIL_NOT_RETRYABLE_EXIT_CODE,
{
}

/// The reason of a failure tells the exit code of the process, and minus one
/// where it ended without any.
pub proof fn law_reason_tells_the_exit_code(a: i32, b: i32)
    ensures
        exit_reason(Some(a)) == exit_reason(Some(b)) ==> a == b,
        exit_reason(None) == exit_reason(Some(-1i32)),
        text::contains(exit_reason(Some(a)), text::signed_decimal(a as int)),
{
    let head = "exited with code "@;
    let none: Seq<char> = seq![];
    let x = text::signed_decimal(a as int);
    let y = text::signed_decimal(b as int);
    text::lemma_stands(head, x, none);
    text::lemma_same_tail(head, x, y);
    text::lemma_signed_differ(a as int, b as int);
}

/// Without capture a test comes to the same as with it, but for what it wrote,
/// which is not kept; its standard error is still shown, all of it, exactly
/// where it failed.
pub proof fn law_uncaptured_process(exit_code: Option<i32>, stdout: Seq<char>, stderr: Seq<char>)
    ensures
        ({
            let (o, shown) = uncaptured_of(exit_code, stderr);
            let captured = outcome_of(exit_code, stdout, stderr);
            &&& shown == if captured is Failed {
                Some(stderr)
            } else {
                None
            }
            &&& !(captured is Failed) ==> o == captured
            &&& captured matches SubprocessOutcomeV::Failed {
                reason,
                stdout: out,
                stderr: err,
                kind,
                retry_eligible,
            } ==> o == (SubprocessOutcomeV::Failed {
                reason,
                stdout: seq![],
                stderr: seq![],
                kind,
                retry_eligible,
            })
        }),
{
}

} // verus!
