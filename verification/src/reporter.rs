//! What is shown of a run.

use crate::duration;
use crate::duration::Duration;
use crate::text;
use vstd::prelude::*;
use vstd::string::*;

verus! {

/// How a test failed.
#[derive(Clone, Copy, Debug, PartialEq, Eq, Structural)]
pub enum Outcome {
    /// The test returned an error.
    Assertion,
    /// The test panicked.
    Panic,
    /// The test was stopped after its timeout.
    Timeout,
    /// The test's process could not be run, or did not come to its end.
    Crash,
}

/// A test, as it is reported.
#[derive(Clone, Copy, Debug)]
pub struct TestRef<'a> {
    pub name: &'a str,
    pub module: &'a str,
    pub file: &'a str,
}

impl<'a> TestRef<'a> {
    /// What tells tests apart: the module and the name.
    pub open spec fn key(self) -> (Seq<char>, Seq<char>) {
        (self.module@, self.name@)
    }
}

// ── styles ──────────────────────────────────────────────────────────────────

/// The control sequences that switch to a style, as `console` writes them.
pub uninterp spec fn style_codes(style: Seq<char>) -> Seq<char>;

/// `text` in a style: between the sequences that switch to it and back, where
/// colors are on and the style has any.
pub open spec fn painted(text: Seq<char>, style: Seq<char>, colors: bool) -> Seq<char> {
    if colors && style_codes(style).len() > 0 {
        style_codes(style) + text + "\u{1b}[0m"@
    } else {
        text
    }
}

/// Applies a `console::Style`, made from its dotted name and with colors
/// forced on or off, to a text. The text stands unchanged between the control
/// sequences of the style; which sequences a style has is not stated.
#[verifier::external_body]
pub(crate) fn paint(text: &str, style: &str, colors: bool) -> (r: String)
    ensures
        colors && style_codes(style@).len() > 0 ==> r@ == style_codes(style@) + text@
            + "\u{1b}[0m"@,
        !(colors && style_codes(style@).len() > 0) ==> r@ == text@,
{
    console::Style::from_dotted_str(style).force_styling(colors).apply_to(text).to_string()
}

// ── lines ───────────────────────────────────────────────────────────────────

/// The status and the time of a test, in front of its name.
pub open spec fn timed(status: Seq<char>, duration: Duration, name: Seq<char>) -> Seq<char> {
    status + " ["@ + duration::seconds_text(duration@, 3) + "s] "@ + name
}

pub(crate) fn timed_line(status: &str, duration: Duration, name: &str) -> (s: String)
    ensures
        s@ == timed(status@, duration, name@),
{
    let mut s = status.to_owned();
    s.append(" [");
    s.append(&duration.seconds(3));
    s.append("s] ");
    s.append(name);
    s
}

/// The line of a test that starts.
pub open spec fn running_line(name: Seq<char>, colors: bool) -> Seq<char> {
    painted("RUNNING"@, "cyan.bold"@, colors) + " "@ + name
}

/// The line of a test that passed: `FLAKY` where it was retried, else `PASS`.
pub open spec fn pass_line(name: Seq<char>, duration: Duration, retries: nat, colors: bool) -> Seq<
    char,
> {
    timed(
        if retries > 0 {
            painted("FLAKY"@, "yellow.bold"@, colors)
        } else {
            painted("PASS"@, "green.bold"@, colors)
        },
        duration,
        name,
    )
}

/// The line of a test that passed after that many retries.
pub fn render_pass_line(name: &str, duration: Duration, retries: usize, colors: bool) -> (s: String)
    ensures
        s@ == pass_line(name@, duration, retries as nat, colors),
{
    let status = if retries > 0 {
        paint("FLAKY", "yellow.bold", colors)
    } else {
        paint("PASS", "green.bold", colors)
    };
    timed_line(&status, duration, name)
}

/// The line of a test that was skipped, with its reason where it has one.
pub open spec fn skip_line(
    name: Seq<char>,
    duration: Duration,
    reason: Seq<char>,
    colors: bool,
) -> Seq<char> {
    let line = timed(painted("SKIP"@, "dim.bold"@, colors), duration, name);
    if reason.len() > 0 {
        line + ": "@ + reason
    } else {
        line
    }
}

/// The line of a test that failed.
pub open spec fn fail_line(
    name: Seq<char>,
    duration: Duration,
    reason: Seq<char>,
    colors: bool,
) -> Seq<char> {
    timed(painted("FAIL"@, "red.bold"@, colors), duration, name) + ": "@ + reason
}

/// The line of an attempt that another one follows.
pub open spec fn retry_line(
    name: Seq<char>,
    attempt: u32,
    max_attempts: u32,
    reason: Seq<char>,
    colors: bool,
) -> Seq<char> {
    painted("RETRY"@, "yellow.bold"@, colors) + " ["@ + text::decimal(attempt as nat) + "/"@
        + text::decimal(max_attempts as nat) + "] "@ + name + ": "@ + reason
}

/// What is shown of a test's output: nothing where it holds nothing but white
/// space, else all of it but the white space around it, indented, under its
/// label.
pub open spec fn captured(label: Seq<char>, content: Seq<char>, colors: bool) -> Option<Seq<char>> {
    let trimmed = text::trim(content);
    if trimmed.len() == 0 {
        None
    } else {
        Some(
            "\n  "@ + painted("── "@ + label + " "@, "dim"@, colors) + "\n"@ + text::indented(
                trimmed,
            ) + "\n"@,
        )
    }
}

/// What is shown of a test's output.
pub fn render_captured(label: &str, content: &str, colors: bool) -> (r: Option<String>)
    ensures
        r.deep_view() == captured(label@, content@, colors),
{
    let trimmed = text::trimmed(content);
    if trimmed.as_str().unicode_len() == 0 {
        return None;
    }
    let mut rule = "── ".to_owned();
    rule.append(label);
    rule.append(" ");
    let mut s = "\n  ".to_owned();
    s.append(&paint(&rule, "dim", colors));
    s.append("\n");
    s.append(&text::indent(&trimmed));
    s.append("\n");
    Some(s)
}

/// The number of tests that passed, and of those that were retried among
/// them, where there are any.
pub open spec fn passed_text(passed: nat, flaky: nat) -> Seq<char> {
    if flaky > 0 {
        text::decimal(passed) + " passed ("@ + text::decimal(flaky) + " flaky)"@
    } else {
        text::decimal(passed) + " passed"@
    }
}

/// The number of tests that passed, and of those that were retried among
/// them.
pub fn passed_label(passed: usize, flaky: usize) -> (s: String)
    ensures
        s@ == passed_text(passed as nat, flaky as nat),
{
    let mut s = text::number(passed as u128);
    if flaky > 0 {
        s.append(" passed (");
        s.append(&text::number(flaky as u128));
        s.append(" flaky)");
    } else {
        s.append(" passed");
    }
    s
}

/// The counts of a run: how many tests passed, and how many were skipped and
/// failed, where any were.
pub open spec fn counts_parts(
    passed: nat,
    flaky: nat,
    skipped: nat,
    failed: nat,
    colors: bool,
) -> Seq<Seq<char>> {
    let first = seq![painted(passed_text(passed, flaky), "green.bold"@, colors)];
    let second = if skipped > 0 {
        first.push(painted(text::decimal(skipped) + " skipped"@, "dim.bold"@, colors))
    } else {
        first
    };
    if failed > 0 {
        second.push(painted(text::decimal(failed) + " failed"@, "red.bold"@, colors))
    } else {
        second
    }
}

/// The last line of a run.
pub open spec fn summary_line(
    passed: nat,
    flaky: nat,
    skipped: nat,
    total: nat,
    elapsed: Duration,
    colors: bool,
) -> Seq<char> {
    let failed = (total - passed - skipped) as nat;
    text::padded(
        painted(
            "Summary"@,
            if failed == 0 {
                "green.bold"@
            } else {
                "red.bold"@
            },
            colors,
        ),
        12,
    ) + " ["@ + duration::seconds_text(elapsed@, 2) + "s] "@ + text::decimal(total)
        + " tests run: "@ + text::join(
        counts_parts(passed, flaky, skipped, failed, colors),
        ", "@,
    )
}

/// The line at the beginning of a phase of the run.
pub open spec fn phase_line(label: Seq<char>, colors: bool) -> Seq<char> {
    painted("──"@, "dim"@, colors) + " "@ + painted(label, "dim.bold"@, colors)
}

/// The line at the beginning of a phase of the run.
pub fn render_phase(label: &str, colors: bool) -> (s: String)
    ensures
        s@ == phase_line(label@, colors),
{
    let mut s = paint("──", "dim", colors);
    s.append(" ");
    s.append(&paint(label, "dim.bold", colors));
    s
}

// ── the console reporter ────────────────────────────────────────────────────

/// What the console shows of a run, and what it has to remember for that: how
/// often each test was retried so far, and how many tests passed after a
/// retry.
pub struct Reporter {
    colors: bool,
    retry_counts: Vec<(String, String, usize)>,
    flaky_passed: usize,
}

/// Whether an entry is the one of that module and name.
pub open spec fn entry_is(e: (String, String, usize), key: (Seq<char>, Seq<char>)) -> bool {
    e.0@ == key.0 && e.1@ == key.1
}

/// The number that the entries hold for that module and name.
pub open spec fn count_for(v: Seq<(String, String, usize)>, key: (Seq<char>, Seq<char>)) -> Option<
    nat,
>
    decreases v.len(),
{
    if v.len() == 0 {
        None
    } else if entry_is(v.last(), key) {
        Some(v.last().2 as nat)
    } else {
        count_for(v.drop_last(), key)
    }
}

/// Whether no module and name have two entries.
pub open spec fn entries_distinct(v: Seq<(String, String, usize)>) -> bool {
    forall|i: int, j: int|
        0 <= i < j < v.len() ==> !((#[trigger] v[i]).0@ == (#[trigger] v[j]).0@ && v[i].1@
            == v[j].1@)
}

proof fn lemma_count_at(v: Seq<(String, String, usize)>, i: int)
    requires
        entries_distinct(v),
        0 <= i < v.len(),
    ensures
        count_for(v, (v[i].0@, v[i].1@)) == Some(v[i].2 as nat),
    decreases v.len(),
{
    if i < v.len() - 1 {
        lemma_count_at(v.drop_last(), i);
    }
}

proof fn lemma_count_none(v: Seq<(String, String, usize)>, key: (Seq<char>, Seq<char>))
    requires
        forall|i: int| 0 <= i < v.len() ==> !entry_is(#[trigger] v[i], key),
    ensures
        count_for(v, key) is None,
    decreases v.len(),
{
    if v.len() > 0 {
        lemma_count_none(v.drop_last(), key);
    }
}

proof fn lemma_count_remove(v: Seq<(String, String, usize)>, i: int, key: (Seq<char>, Seq<char>))
    requires
        entries_distinct(v),
        0 <= i < v.len(),
    ensures
        entries_distinct(v.remove(i)),
        count_for(v.remove(i), key) == if entry_is(v[i], key) {
            None
        } else {
            count_for(v, key)
        },
    decreases v.len(),
{
    let r = v.remove(i);
    assert forall|a: int, b: int| 0 <= a < b < r.len() implies !((#[trigger] r[a]).0@ == (
    #[trigger] r[b]).0@ && r[a].1@ == r[b].1@) by {
        let x = if a < i {
            a
        } else {
            a + 1
        };
        let y = if b < i {
            b
        } else {
            b + 1
        };
        assert(r[a] == v[x] && r[b] == v[y]);
    }
    if i == v.len() - 1 {
        assert(r =~= v.drop_last());
        if entry_is(v[i], key) {
            assert forall|k: int| 0 <= k < r.len() implies !entry_is(#[trigger] r[k], key) by {
                assert(r[k] == v[k]);
            }
            lemma_count_none(r, key);
        }
    } else {
        lemma_count_remove(v.drop_last(), i, key);
        assert(r.drop_last() =~= v.drop_last().remove(i));
        assert(r.last() == v.last());
        if entry_is(v[i], key) && entry_is(v.last(), key) {
            assert(v[i].0@ == v[v.len() - 1].0@);
        }
    }
}

/// Whether `b` is what `a` becomes once the test of that key is retried: the
/// test has one retry more.
pub open spec fn after_retry(a: Reporter, b: Reporter, key: (Seq<char>, Seq<char>)) -> bool {
    &&& b.colors() == a.colors()
    &&& b.flaky() == a.flaky()
    &&& forall|k: (Seq<char>, Seq<char>)| #[trigger]
        b.retries(k) == if k == key {
            Some((a.retries_or_none(key) + 1) as nat)
        } else {
            a.retries(k)
        }
}

/// Whether `b` is what `a` becomes once the test of that key passed: its
/// retries are forgotten, and it counts as flaky where it had any.
pub open spec fn after_pass(a: Reporter, b: Reporter, key: (Seq<char>, Seq<char>)) -> bool {
    &&& b.colors() == a.colors()
    &&& b.flaky() == a.flaky() + if a.retries_or_none(key) > 0 {
        1int
    } else {
        0
    }
    &&& forall|k: (Seq<char>, Seq<char>)| #[trigger]
        b.retries(k) == if k == key {
            None
        } else {
            a.retries(k)
        }
}

/// Whether `b` is what `a` becomes once the test of that key failed: its
/// retries are forgotten.
pub open spec fn after_failure(a: Reporter, b: Reporter, key: (Seq<char>, Seq<char>)) -> bool {
    &&& b.colors() == a.colors()
    &&& b.flaky() == a.flaky()
    &&& forall|k: (Seq<char>, Seq<char>)| #[trigger]
        b.retries(k) == if k == key {
            None
        } else {
            a.retries(k)
        }
}

impl Reporter {
    /// How often a test was retried since it last passed or failed, where
    /// it was.
    pub closed spec fn retries(self, key: (Seq<char>, Seq<char>)) -> Option<nat> {
        count_for(self.retry_counts@, key)
    }

    /// How often a test was retried since it last passed or failed.
    pub open spec fn retries_or_none(self, key: (Seq<char>, Seq<char>)) -> nat {
        match self.retries(key) {
            Some(n) => n,
            None => 0,
        }
    }

    /// How many tests passed after a retry.
    pub closed spec fn flaky(self) -> nat {
        self.flaky_passed as nat
    }

    /// Whether colors are on.
    pub closed spec fn colors(self) -> bool {
        self.colors
    }

    /// What holds of every reporter: no test is remembered twice.
    pub closed spec fn well_formed(self) -> bool {
        entries_distinct(self.retry_counts@)
    }

    /// A reporter at the start of a run.
    pub fn new(colors: bool) -> (r: Reporter)
        ensures
            r.well_formed(),
            r.colors() == colors,
            r.flaky() == 0,
            forall|key: (Seq<char>, Seq<char>)| r.retries(key) is None,
    {
        let r = Reporter { colors, retry_counts: Vec::new(), flaky_passed: 0 };
        assert forall|key: (Seq<char>, Seq<char>)| r.retries(key) is None by {}
        r
    }

    /// How many tests passed after a retry.
    pub fn flaky_passed(&self) -> (n: usize)
        ensures
            n == self.flaky(),
    {
        self.flaky_passed
    }

    /// How often a test was retried since it last passed or failed, where
    /// it was.
    pub fn pending_retries(&self, test: TestRef) -> (n: Option<usize>)
        requires
            self.well_formed(),
        ensures
            match n {
                Some(n) => self.retries(test.key()) == Some(n as nat),
                None => self.retries(test.key()) is None,
            },
    {
        match self.find(test) {
            Some(i) => {
                proof {
                    lemma_count_at(self.retry_counts@, i as int);
                }
                Some(self.retry_counts[i].2)
            },
            None => None,
        }
    }

    fn find(&self, test: TestRef) -> (r: Option<usize>)
        requires
            self.well_formed(),
        ensures
            match r {
                Some(i) => i < self.retry_counts@.len() && entry_is(
                    self.retry_counts@[i as int],
                    test.key(),
                ),
                None => self.retries(test.key()) is None,
            },
    {
        let mut i: usize = 0;
        while i < self.retry_counts.len()
            invariant
                i <= self.retry_counts@.len(),
                forall|k: int|
                    0 <= k < i ==> !entry_is(#[trigger] self.retry_counts@[k], test.key()),
            decreases self.retry_counts@.len() - i,
        {
            if text::same(&self.retry_counts[i].0, test.module) && text::same(
                &self.retry_counts[i].1,
                test.name,
            ) {
                return Some(i);
            }
            i += 1;
        }
        proof {
            lemma_count_none(self.retry_counts@, test.key());
        }
        None
    }

    fn take_retries(&mut self, test: TestRef) -> (n: usize)
        requires
            old(self).well_formed(),
        ensures
            final(self).well_formed(),
            final(self).colors() == old(self).colors(),
            final(self).flaky() == old(self).flaky(),
            n == old(self).retries_or_none(test.key()),
            forall|key: (Seq<char>, Seq<char>)| #[trigger]
                final(self).retries(key) == if key == test.key() {
                    None
                } else {
                    old(self).retries(key)
                },
    {
        match self.find(test) {
            Some(i) => {
                let ghost was = self.retry_counts@;
                let e = self.retry_counts.remove(i);
                proof {
                    lemma_count_at(was, i as int);
                    assert(self.retry_counts@ =~= was.remove(i as int));
                    lemma_count_remove(was, i as int, test.key());
                    assert forall|key: (Seq<char>, Seq<char>)| #[trigger]
                        self.retries(key) == if key == test.key() {
                            None
                        } else {
                            old(self).retries(key)
                        } by {
                        lemma_count_remove(was, i as int, key);
                    }
                }
                e.2
            },
            None => 0,
        }
    }

    /// What the console shows for a test that starts.
    pub fn test_started(&self, test: TestRef) -> (s: String)
        ensures
            s@ == running_line(test.name@, self.colors()),
    {
        let mut s = paint("RUNNING", "cyan.bold", self.colors);
        s.append(" ");
        s.append(test.name);
        s
    }

    /// What the console shows for a test that passed. A test that was retried
    /// counts as flaky, and its retries are forgotten.
    pub fn test_passed(&mut self, test: TestRef, duration: Duration) -> (s: String)
        requires
            old(self).well_formed(),
            old(self).flaky() < usize::MAX,
        ensures
            final(self).well_formed(),
            s@ == pass_line(
                test.name@,
                duration,
                old(self).retries_or_none(test.key()),
                old(self).colors(),
            ),
            after_pass(*old(self), *final(self), test.key()),
    {
        let retries = self.take_retries(test);
        let ghost taken = *self;
        if retries > 0 {
            self.flaky_passed = self.flaky_passed + 1;
        }
        assert forall|key: (Seq<char>, Seq<char>)| #[trigger] self.retries(key) == taken.retries(
            key,
        ) by {}
        render_pass_line(test.name, duration, retries, self.colors)
    }

    /// What the console shows for a test that was skipped.
    pub fn test_skipped(&self, test: TestRef, duration: Duration, reason: &str) -> (s: String)
        ensures
            s@ == skip_line(test.name@, duration, reason@, self.colors()),
    {
        let mut s = timed_line(&paint("SKIP", "dim.bold", self.colors), duration, test.name);
        if reason.unicode_len() > 0 {
            s.append(": ");
            s.append(reason);
        }
        s
    }

    /// What the console shows for a test that failed: its line, then what it
    /// wrote. Its retries are forgotten.
    pub fn test_failed(
        &mut self,
        test: TestRef,
        duration: Duration,
        reason: &str,
        stdout: &str,
        stderr: &str,
    ) -> (r: (String, Option<String>, Option<String>))
        requires
            old(self).well_formed(),
        ensures
            final(self).well_formed(),
            r.0@ == fail_line(test.name@, duration, reason@, old(self).colors()),
            r.1.deep_view() == captured("stdout"@, stdout@, old(self).colors()),
            r.2.deep_view() == captured("stderr"@, stderr@, old(self).colors()),
            after_failure(*old(self), *final(self), test.key()),
    {
        let _ = self.take_retries(test);
        let mut s = timed_line(&paint("FAIL", "red.bold", self.colors), duration, test.name);
        s.append(": ");
        s.append(reason);
        (
            s,
            render_captured("stdout", stdout, self.colors),
            render_captured("stderr", stderr, self.colors),
        )
    }

    /// What the console shows for an attempt that another one follows. The
    /// test's retries go up by one.
    pub fn test_retrying(
        &mut self,
        test: TestRef,
        attempt: u32,
        max_attempts: u32,
        reason: &str,
    ) -> (s: String)
        requires
            old(self).well_formed(),
            old(self).retries(test.key()) matches Some(n) ==> n < usize::MAX,
        ensures
            final(self).well_formed(),
            s@ == retry_line(test.name@, attempt, max_attempts, reason@, old(self).colors()),
            after_retry(*old(self), *final(self), test.key()),
    {
        let n = self.take_retries(test);
        let ghost taken = *self;
        let ghost was = self.retry_counts@;
        self.retry_counts.push((test.module.to_owned(), test.name.to_owned(), n + 1));
        proof {
            let now = self.retry_counts@;
            assert(now.drop_last() =~= was);
            assert forall|i: int, j: int| 0 <= i < j < now.len() implies !((#[trigger] now[i]).0@
                == (#[trigger] now[j]).0@ && now[i].1@ == now[j].1@) by {
                if j == now.len() - 1 {
                    assert(taken.retries(test.key()) is None);
                    lemma_count_at(was, i);
                    assert(was[i] == now[i]);
                } else {
                    assert(was[i] == now[i] && was[j] == now[j]);
                }
            }
            assert forall|key: (Seq<char>, Seq<char>)| #[trigger]
                self.retries(key) == if key == test.key() {
                    Some((old(self).retries_or_none(key) + 1) as nat)
                } else {
                    old(self).retries(key)
                } by {
                assert(taken.retries(key) == count_for(was, key));
            }
        }
        let mut s = paint("RETRY", "yellow.bold", self.colors);
        s.append(" [");
        s.append(&text::number(attempt as u128));
        s.append("/");
        s.append(&text::number(max_attempts as u128));
        s.append("] ");
        s.append(test.name);
        s.append(": ");
        s.append(reason);
        s
    }

    /// What the console shows when a phase of the run begins.
    pub fn print_phase(&self, label: &str) -> (s: String)
        ensures
            s@ == phase_line(label@, self.colors()),
    {
        render_phase(label, self.colors)
    }

    /// What the console shows at the end of a run: a rule and the summary.
    pub fn finish(&self, passed: usize, skipped: usize, total: usize, elapsed: Duration) -> (r: (
        String,
        String,
    ))
        requires
            passed + skipped <= total,
        ensures
            r.0@ == painted(text::repeated('─', 60), "dim"@, self.colors()),
            r.1@ == summary_line(
                passed as nat,
                self.flaky(),
                skipped as nat,
                total as nat,
                elapsed,
                self.colors(),
            ),
    {
        let failed: usize = total - passed - skipped;
        let rule = paint(&text::repeat('─', 60), "dim", self.colors);
        let mut parts: Vec<String> = Vec::new();
        parts.push(paint(&passed_label(passed, self.flaky_passed), "green.bold", self.colors));
        if skipped > 0 {
            let mut s = text::number(skipped as u128);
            s.append(" skipped");
            parts.push(paint(&s, "dim.bold", self.colors));
        }
        if failed > 0 {
            let mut s = text::number(failed as u128);
            s.append(" failed");
            parts.push(paint(&s, "red.bold", self.colors));
        }
        assert(parts.deep_view() =~= counts_parts(
            passed as nat,
            self.flaky(),
            skipped as nat,
            failed as nat,
            self.colors(),
        ));
        let style = if failed == 0 {
            "green.bold"
        } else {
            "red.bold"
        };
        let mut s = text::pad(&paint("Summary", style, self.colors), 12);
        s.append(" [");
        s.append(&elapsed.seconds(2));
        s.append("s] ");
        s.append(&text::number(total as u128));
        s.append(" tests run: ");
        s.append(&text::joined(&parts, ", "));
        (rule, s)
    }
}

/// What several reporters say at the end of a run: nothing wrong where none
/// of them does, else what the first of those says that do.
pub open spec fn first_failure(results: Seq<Result<(), String>>) -> Result<(), String>
    decreases results.len(),
{
    if results.len() == 0 {
        Ok(())
    } else if results[0] is Err {
        results[0]
    } else {
        first_failure(results.skip(1))
    }
}

/// What several reporters say at the end of a run.
pub fn first_error(results: Vec<Result<(), String>>) -> (r: Result<(), String>)
    ensures
        r == first_failure(results@),
{
    let ghost all = results@;
    let mut first: Option<String> = None;
    assert(all.skip(0) =~= all);
    for result in it: results
        invariant
            it.seq() == all,
            match first {
                Some(e) => first_failure(all) == Err::<(), String>(e),
                None => first_failure(all) == first_failure(all.skip(it.index() as int)),
            },
    {
        proof {
            let i = it.index() as int;
            assert(all.skip(i)[0] == all[i]);
            assert(all.skip(i).skip(1) =~= all.skip(i + 1));
        }
        if first.is_none() {
            if let Err(e) = result {
                first = Some(e);
            }
        }
    }
    match first {
        Some(e) => Err(e),
        None => Ok(()),
    }
}

// ── laws ────────────────────────────────────────────────────────────────────

/// A test that is retried and then passes counts as flaky, and its retries do
/// not carry over to a later run of it.
pub proof fn law_retry_then_pass_is_flaky(
    a: Reporter,
    b: Reporter,
    c: Reporter,
    key: (Seq<char>, Seq<char>),
)
    requires
        after_retry(a, b, key),
        after_pass(b, c, key),
    ensures
        c.flaky() == a.flaky() + 1,
        c.retries(key) is None,
{
    assert(b.retries(key) == Some((a.retries_or_none(key) + 1) as nat));
}

/// A test that passes without a retry does not count as flaky.
pub proof fn law_clean_pass_is_not_flaky(a: Reporter, b: Reporter, key: (Seq<char>, Seq<char>))
    requires
        a.retries(key) is None,
        after_pass(a, b, key),
    ensures
        b.flaky() == a.flaky(),
{
}

/// A test that is retried and then fails does not count as flaky, and its
/// retries do not carry over to a later run of it.
pub proof fn law_failure_is_not_flaky(
    a: Reporter,
    b: Reporter,
    c: Reporter,
    d: Reporter,
    key: (Seq<char>, Seq<char>),
)
    requires
        after_retry(a, b, key),
        after_failure(b, c, key),
        after_pass(c, d, key),
    ensures
        c.flaky() == a.flaky(),
        c.retries(key) is None,
        d.flaky() == a.flaky(),
{
}

/// What a reporter that keeps count is told of the test of that module and
/// name.
pub enum Told {
    Retried((Seq<char>, Seq<char>)),
    Passed((Seq<char>, Seq<char>)),
    Failed((Seq<char>, Seq<char>)),
}

/// Whether `b` is what `a` becomes once it is told that.
pub open spec fn after(a: Reporter, b: Reporter, told: Told) -> bool {
    match told {
        Told::Retried(key) => after_retry(a, b, key),
        Told::Passed(key) => after_pass(a, b, key),
        Told::Failed(key) => after_failure(a, b, key),
    }
}

/// How often a test was retried since it last passed or failed.
pub open spec fn retries_since(told: Seq<Told>, key: (Seq<char>, Seq<char>)) -> nat
    decreases told.len(),
{
    if told.len() == 0 {
        0
    } else {
        let before = retries_since(told.drop_last(), key);
        match told.last() {
            Told::Retried(k) => if k == key {
                before + 1
            } else {
                before
            },
            Told::Passed(k) => if k == key {
                0
            } else {
                before
            },
            Told::Failed(k) => if k == key {
                0
            } else {
                before
            },
        }
    }
}

/// How often a test passed that had been retried since it last passed or
/// failed.
pub open spec fn flaky_passes(told: Seq<Told>) -> nat
    decreases told.len(),
{
    if told.len() == 0 {
        0
    } else {
        let before = flaky_passes(told.drop_last());
        match told.last() {
            Told::Passed(k) => if retries_since(told.drop_last(), k) > 0 {
                before + 1
            } else {
                before
            },
            _ => before,
        }
    }
}

/// Whether a reporter that knew of nothing went through those states as it was
/// told that.
pub open spec fn history(states: Seq<Reporter>, told: Seq<Told>) -> bool {
    &&& states.len() == told.len() + 1
    &&& states[0].flaky() == 0
    &&& forall|key: (Seq<char>, Seq<char>)| states[0].retries(key) is None
    &&& forall|i: int|
        0 <= i < told.len() ==> after(states[i], #[trigger] states[i + 1], told[i])
}

/// Whatever a reporter was told, it knows of every test how often the test was
/// retried since it last passed or failed, which decides between `PASS` and
/// `FLAKY`, and how many passes were flaky, which the summary shows.
pub proof fn law_counts_follow_history(states: Seq<Reporter>, told: Seq<Told>)
    requires
        history(states, told),
    ensures
        forall|key: (Seq<char>, Seq<char>)| #[trigger]
            states.last().retries_or_none(key) == retries_since(told, key),
        states.last().flaky() == flaky_passes(told),
    decreases told.len(),
{
    if told.len() > 0 {
        let n = told.len() - 1;
        let states_before = states.drop_last();
        let told_before = told.drop_last();
        assert forall|i: int| 0 <= i < told_before.len() implies after(
            states_before[i],
            #[trigger] states_before[i + 1],
            told_before[i],
        ) by {
            assert(states_before[i + 1] == states[i + 1]);
        }
        law_counts_follow_history(states_before, told_before);
        let a = states[n];
        let b = states[n + 1];
        assert(states_before.last() == a);
        assert(after(a, b, told.last()));
        let key = match told.last() {
            Told::Retried(k) => k,
            Told::Passed(k) => k,
            Told::Failed(k) => k,
        };
        assert(a.retries_or_none(key) == retries_since(told_before, key));
        assert forall|k: (Seq<char>, Seq<char>)| #[trigger]
            b.retries_or_none(k) == retries_since(told, k) by {
            assert(a.retries_or_none(k) == retries_since(told_before, k));
        }
    }
}

/// Whatever a reporter was told before, a test that passes is shown as `FLAKY`
/// where it was retried since it last passed or failed, and as `PASS` where it
/// was not; and it then has no retries.
pub proof fn law_pass_is_shown_by_history(
    states: Seq<Reporter>,
    told: Seq<Told>,
    next: Reporter,
    key: (Seq<char>, Seq<char>),
    duration: Duration,
)
    requires
        history(states, told),
        after_pass(states.last(), next, key),
    ensures
        ({
            let a = states.last();
            &&& pass_line(key.1, duration, a.retries_or_none(key), a.colors()) == timed(
                if retries_since(told, key) > 0 {
                    painted("FLAKY"@, "yellow.bold"@, a.colors())
                } else {
                    painted("PASS"@, "green.bold"@, a.colors())
                },
                duration,
                key.1,
            )
            &&& next.retries_or_none(key) == 0
            &&& next.flaky() == flaky_passes(told.push(Told::Passed(key)))
        }),
{
    law_counts_follow_history(states, told);
    assert(told.push(Told::Passed(key)).drop_last() =~= told);
    assert(states.last().retries_or_none(key) == retries_since(told, key));
}

/// Whatever a reporter was told before, the summary counts the flaky passes
/// behind the number of tests that passed, where there are any.
pub proof fn law_summary_shows_flaky_passes(
    states: Seq<Reporter>,
    told: Seq<Told>,
    passed: nat,
    skipped: nat,
    failed: nat,
    colors: bool,
)
    requires
        history(states, told),
    ensures
        counts_parts(passed, states.last().flaky(), skipped, failed, colors)[0] == painted(
            if flaky_passes(told) == 0 {
                text::decimal(passed) + " passed"@
            } else {
                text::decimal(passed) + " passed ("@ + text::decimal(flaky_passes(told))
                    + " flaky)"@
            },
            "green.bold"@,
            colors,
        ),
{
    law_counts_follow_history(states, told);
}

/// The number in front of "tests run" in the last line of a run is that of the
/// tests that passed, were skipped and failed together, which is the total that
/// is given.
pub proof fn law_summary_counts_every_test(
    passed: nat,
    flaky: nat,
    skipped: nat,
    failed: nat,
    total: nat,
    elapsed: Duration,
    colors: bool,
)
    requires
        total == passed + skipped + failed,
    ensures
        exists|head: Seq<char>, tail: Seq<char>|
            {
                let line = summary_line(passed, flaky, skipped, total, elapsed, colors);
                &&& line == #[trigger] (head + "s] "@ + text::decimal(passed + skipped + failed)
                    + " tests run: "@ + tail)
                &&& tail == text::join(
                    counts_parts(passed, flaky, skipped, failed, colors),
                    ", "@,
                )
            },
{
    let line = summary_line(passed, flaky, skipped, total, elapsed, colors);
    let head = text::padded(
        painted(
            "Summary"@,
            if failed == 0 {
                "green.bold"@
            } else {
                "red.bold"@
            },
            colors,
        ),
        12,
    ) + " ["@ + duration::seconds_text(elapsed@, 2);
    let tail = text::join(counts_parts(passed, flaky, skipped, failed, colors), ", "@);
    assert(line == head + "s] "@ + text::decimal(passed + skipped + failed) + " tests run: "@
        + tail);
}

/// A text between what may switch to a style and back.
pub open spec fn shows(painted: Seq<char>, text: Seq<char>) -> bool {
    text::contains(painted, text)
}

proof fn lemma_shows(text: Seq<char>, style: Seq<char>, colors: bool)
    ensures
        shows(painted(text, style, colors), text),
        !colors ==> painted(text, style, colors) == text,
{
    assert(text.subrange(0, text.len() as int) =~= text);
    assert(text::occurs_at(text, text, 0));
    if colors && style_codes(style).len() > 0 {
        text::lemma_contains_within(style_codes(style), text, "\u{1b}[0m"@, text);
    }
}

/// The counts of a run show the number of tests that passed, always, and the
/// number of those that were skipped and of those that failed exactly where
/// there are any, each with its own word; and a style changes nothing of what
/// is shown.
pub proof fn law_counts_are_shown(
    passed: nat,
    flaky: nat,
    skipped: nat,
    failed: nat,
    colors: bool,
)
    ensures
        ({
            let parts = counts_parts(passed, flaky, skipped, failed, colors);
            let n = parts.len() as int;
            &&& n == 1 + if skipped > 0 {
                1int
            } else {
                0
            } + if failed > 0 {
                1int
            } else {
                0
            }
            &&& shows(parts[0], text::decimal(passed) + " passed"@)
            &&& flaky > 0 ==> shows(parts[0], "("@ + text::decimal(flaky) + " flaky)"@)
            &&& skipped > 0 ==> shows(parts[1], text::decimal(skipped) + " skipped"@)
            &&& failed > 0 ==> shows(parts[n - 1], text::decimal(failed) + " failed"@)
        }),
{
    lemma_shows(passed_text(passed, flaky), "green.bold"@, colors);
    lemma_shows(text::decimal(skipped) + " skipped"@, "dim.bold"@, colors);
    lemma_shows(text::decimal(failed) + " failed"@, "red.bold"@, colors);
    lemma_passed_text(passed, flaky);
    let first = painted(passed_text(passed, flaky), "green.bold"@, colors);
    lemma_contains_trans(first, passed_text(passed, flaky), text::decimal(passed) + " passed"@);
    if flaky > 0 {
        lemma_contains_trans(
            first,
            passed_text(passed, flaky),
            "("@ + text::decimal(flaky) + " flaky)"@,
        );
    }
}

proof fn lemma_passed_text(passed: nat, flaky: nat)
    ensures
        text::contains(passed_text(passed, flaky), text::decimal(passed) + " passed"@),
        flaky > 0 ==> text::contains(
            passed_text(passed, flaky),
            "("@ + text::decimal(flaky) + " flaky)"@,
        ),
{
    let n = text::decimal(passed);
    let m = text::decimal(flaky);
    lemma_passed_literal();
    lemma_passed_pieces(n, " passed"@, " "@, "("@, m, " flaky)"@);
}

proof fn lemma_passed_literal()
    ensures
        " passed ("@ == " passed"@ + (" "@ + "("@),
{
    reveal_strlit(" passed");
    reveal_strlit(" passed (");
    reveal_strlit("(");
    reveal_strlit(" ");
    assert(" passed ("@ =~= " passed"@ + (" "@ + "("@));
}

proof fn lemma_passed_pieces(
    n: Seq<char>,
    p: Seq<char>,
    s: Seq<char>,
    b: Seq<char>,
    m: Seq<char>,
    f: Seq<char>,
)
    ensures
        text::contains(n + (p + (s + b)) + m + f, n + p),
        text::contains(n + (p + (s + b)) + m + f, b + m + f),
        text::contains(n + p, n + p),
{
    lemma_passed_regroup(n, p, s, b, m, f);
    text::lemma_stands(n, n + p, s + b + m + f);
    text::lemma_stands(n + p + s, b + m + f, n);
}

proof fn lemma_passed_regroup(
    n: Seq<char>,
    p: Seq<char>,
    s: Seq<char>,
    b: Seq<char>,
    m: Seq<char>,
    f: Seq<char>,
)
    ensures
        n + (p + (s + b)) + m + f == (n + p) + (s + b + m + f),
        n + (p + (s + b)) + m + f == (n + p + s) + (b + m + f),
{
    assert(n + (p + (s + b)) + m + f =~= (n + p) + (s + b + m + f));
    assert(n + (p + (s + b)) + m + f =~= (n + p + s) + (b + m + f));
}

proof fn lemma_contains_trans(a: Seq<char>, b: Seq<char>, c: Seq<char>)
    requires
        text::contains(a, b),
        text::contains(b, c),
    ensures
        text::contains(a, c),
{
    let i = choose|i: int| text::occurs_at(a, b, i);
    let head = a.take(i);
    let tail = a.skip(i + b.len());
    assert(a =~= head + b + tail) by {
        assert(a.subrange(i, i + b.len()) == b);
        assert forall|k: int| 0 <= k < a.len() implies #[trigger] a[k] == (head + b + tail)[k] by {
            if i <= k < i + b.len() {
                assert(a.subrange(i, i + b.len())[k - i] == a[k]);
            }
        }
    }
    text::lemma_contains_within(head, b, tail, c);
}

/// Without colors the line of a test is its status, its time in brackets and
/// its name, and behind them its reason where it has one; a test that passed
/// after a retry has another status than one that passed at once, and neither
/// that of one that failed or was skipped.
pub proof fn law_lines_without_colors(name: Seq<char>, duration: Duration, reason: Seq<char>, n: nat)
    ensures
        ({
            let time = " ["@ + duration::seconds_text(duration@, 3) + "s] "@;
            &&& pass_line(name, duration, 0, false) == "PASS"@ + time + name
            &&& n > 0 ==> pass_line(name, duration, n, false) == "FLAKY"@ + time + name
            &&& fail_line(name, duration, reason, false) == "FAIL"@ + time + name + ": "@ + reason
            &&& reason.len() > 0 ==> skip_line(name, duration, reason, false) == "SKIP"@ + time
                + name + ": "@ + reason
            &&& skip_line(name, duration, seq![], false) == "SKIP"@ + time + name
        }),
{
    let time = " ["@ + duration::seconds_text(duration@, 3) + "s] "@;
    assert(pass_line(name, duration, 0, false) =~= "PASS"@ + time + name);
    assert(n > 0 ==> pass_line(name, duration, n, false) =~= "FLAKY"@ + time + name);
    assert(fail_line(name, duration, reason, false) =~= "FAIL"@ + time + name + ": "@ + reason);
    assert(reason.len() > 0 ==> skip_line(name, duration, reason, false) =~= "SKIP"@ + time + name
        + ": "@ + reason);
    assert(skip_line(name, duration, seq![], false) =~= "SKIP"@ + time + name);
}

/// The line of an attempt that another one follows tells which of how many
/// attempts it was, the test and the reason, in that order.
pub proof fn law_retry_line(
    name: Seq<char>,
    attempt: u32,
    max_attempts: u32,
    reason: Seq<char>,
    colors: bool,
)
    ensures
        exists|head: Seq<char>, first: Seq<char>, second: Seq<char>|
            {
                &&& retry_line(name, attempt, max_attempts, reason, colors) == #[trigger] (head
                    + " ["@ + first + "/"@ + second + "] "@ + name + ": "@ + reason)
                &&& shows(head, "RETRY"@)
                &&& text::decimal_value(first) == attempt
                &&& text::decimal_value(second) == max_attempts
            },
{
    let head = painted("RETRY"@, "yellow.bold"@, colors);
    lemma_shows("RETRY"@, "yellow.bold"@, colors);
    text::lemma_decimal(attempt as nat);
    text::lemma_decimal(max_attempts as nat);
    assert(retry_line(name, attempt, max_attempts, reason, colors) == head + " ["@
        + text::decimal(attempt as nat) + "/"@ + text::decimal(max_attempts as nat) + "] "@ + name
        + ": "@ + reason);
}

/// What a test wrote is shown exactly where it is more than white space, under
/// its label, and what is shown of it is all of it but the white space around
/// it.
pub proof fn law_output_is_shown(label: Seq<char>, content: Seq<char>, colors: bool)
    ensures
        captured(label, content, colors) is None <==> forall|i: int|
            0 <= i < content.len() ==> text::white(#[trigger] content[i]),
        captured(label, content, colors) matches Some(shown) ==> text::contains(shown, label)
            && text::contains(shown, text::indented(text::trim(content))),
{
    text::law_trim(content);
    let t = text::trim(content);
    let (from, to) = choose|from: int, to: int|
        0 <= from <= to <= content.len() && t == #[trigger] content.subrange(from, to)
            && (forall|i: int|
            0 <= i < from || to <= i < content.len() ==> text::white(#[trigger] content[i]));
    if t.len() > 0 {
        assert(content[from] == t[0]);
        let title = "── "@ + label + " "@;
        let rule = painted(title, "dim"@, colors);
        let body = text::indented(t);
        let shown = captured(label, content, colors)->0;
        lemma_shows(title, "dim"@, colors);
        assert(label.subrange(0, label.len() as int) =~= label);
        assert(text::occurs_at(label, label, 0));
        text::lemma_contains_within("── "@, label, " "@, label);
        lemma_contains_trans(rule, title, label);
        text::lemma_contains_within("\n  "@, rule, "\n"@ + body + "\n"@, label);
        assert(shown =~= "\n  "@ + rule + ("\n"@ + body + "\n"@));
        assert(body.subrange(0, body.len() as int) =~= body);
        assert(text::occurs_at(body, body, 0));
        text::lemma_contains_within("\n  "@ + rule + "\n"@, body, "\n"@, body);
    } else {
        assert(from == to);
    }
}

/// Of several reporters the first one that says that something is wrong
/// decides, and nothing is wrong exactly where none of them says so.
pub proof fn law_first_failure(results: Seq<Result<(), String>>, n: int)
    requires
        0 <= n <= results.len(),
        forall|i: int| 0 <= i < n ==> (#[trigger] results[i]) is Ok,
        n < results.len() ==> results[n] is Err,
    ensures
        n < results.len() ==> first_failure(results) == results[n],
        n == results.len() ==> first_failure(results) is Ok,
    decreases results.len(),
{
    if n > 0 {
        let rest = results.skip(1);
        assert(results[0] is Ok);
        assert forall|i: int| 0 <= i < n - 1 implies (#[trigger] rest[i]) is Ok by {
            assert(rest[i] == results[i + 1]);
        }
        law_first_failure(rest, n - 1);
    }
}

/// The last line of a run begins with its heading, in the color of a success
/// exactly where no test failed.
pub proof fn law_summary_shows_success(
    passed: nat,
    flaky: nat,
    skipped: nat,
    failed: nat,
    elapsed: Duration,
    colors: bool,
)
    ensures
        ({
            let line = summary_line(
                passed,
                flaky,
                skipped,
                passed + skipped + failed,
                elapsed,
                colors,
            );
            &&& failed == 0 ==> text::padded(
                painted("Summary"@, "green.bold"@, colors),
                12,
            ).is_prefix_of(line)
            &&& failed > 0 ==> text::padded(
                painted("Summary"@, "red.bold"@, colors),
                12,
            ).is_prefix_of(line)
        }),
{
    let line = summary_line(passed, flaky, skipped, passed + skipped + failed, elapsed, colors);
    let head = text::padded(
        painted(
            "Summary"@,
            if failed == 0 {
                "green.bold"@
            } else {
                "red.bold"@
            },
            colors,
        ),
        12,
    );
    assert(line.take(head.len() as int) =~= head);
}

/// A style changes nothing of what is shown of a test: its line holds the same
/// status, and its name, its time and its reason stand in it, with colors and
/// without.
pub proof fn law_colors_change_nothing(
    name: Seq<char>,
    duration: Duration,
    reason: Seq<char>,
    label: Seq<char>,
    colors: bool,
    n: nat,
)
    ensures
        ({
            let tail = " ["@ + duration::seconds_text(duration@, 3) + "s] "@ + name;
            &&& exists|status: Seq<char>|
                shows(status, "PASS"@) && pass_line(name, duration, 0, colors) == #[trigger] (
                status + tail)
            &&& n > 0 ==> exists|status: Seq<char>|
                shows(status, "FLAKY"@) && pass_line(name, duration, n, colors) == #[trigger] (
                status + tail)
            &&& exists|status: Seq<char>|
                shows(status, "FAIL"@) && fail_line(name, duration, reason, colors) == #[trigger] (
                status + tail) + ": "@ + reason
            &&& exists|status: Seq<char>|
                shows(status, "RUNNING"@) && running_line(name, colors) == #[trigger] (status
                    + " "@) + name
            &&& shows(phase_line(label, colors), label)
        }),
{
    let tail = " ["@ + duration::seconds_text(duration@, 3) + "s] "@ + name;
    let none: Seq<char> = seq![];
    let pass = painted("PASS"@, "green.bold"@, colors);
    lemma_shows("PASS"@, "green.bold"@, colors);
    assert(pass_line(name, duration, 0, colors) =~= pass + tail);
    let flaky = painted("FLAKY"@, "yellow.bold"@, colors);
    lemma_shows("FLAKY"@, "yellow.bold"@, colors);
    assert(n > 0 ==> pass_line(name, duration, n, colors) =~= flaky + tail);
    let fail = painted("FAIL"@, "red.bold"@, colors);
    lemma_shows("FAIL"@, "red.bold"@, colors);
    assert(fail_line(name, duration, reason, colors) =~= (fail + tail) + ": "@ + reason);
    let running = painted("RUNNING"@, "cyan.bold"@, colors);
    lemma_shows("RUNNING"@, "cyan.bold"@, colors);
    assert(running_line(name, colors) == (running + " "@) + name);
    lemma_shows(label, "dim.bold"@, colors);
    let shown = painted(label, "dim.bold"@, colors);
    let rule = painted("──"@, "dim"@, colors);
    text::lemma_contains_within(rule + " "@, shown, none, label);
    assert(rule + " "@ + shown + none =~= phase_line(label, colors));
}

} // verus!
