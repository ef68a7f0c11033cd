//! What a test process does with what its test came to.

use crate::protocol;
use crate::registry::TestCase;
use crate::text;
use vstd::prelude::*;
use vstd::string::*;

verus! {

/// A skipped test's reason.
#[derive(Debug)]
pub struct Skip(pub String);

impl Skip {
    /// The reason.
    pub fn render(&self) -> (s: String)
        ensures
            s@ == self.0@,
    {
        self.0.clone()
    }
}

/// What a test came to inside its process.
#[derive(Debug)]
pub enum TestReturn {
    /// It passed.
    Passed,
    /// It was skipped.
    Skipped(Skip),
    /// It returned an error that its error pattern does not accept.
    NotRetryEligible(String),
    /// It returned another error.
    Failed(String),
    /// It panicked.
    Panicked,
}

/// How a test process ends: the line that it writes to standard error, if
/// any, and its exit code.
pub open spec fn ending_of(r: TestReturn) -> (Option<Seq<char>>, i32) {
    match r {
        TestReturn::Passed => (None, 0i32),
        TestReturn::Skipped(skip) => (
            Some(protocol::skip_prefix()@ + skip.0@),
            protocol::SKIP_EXIT_CODE,
        ),
        TestReturn::NotRetryEligible(e) => (Some(e@), protocol::FAIL_NOT_RETRYABLE_EXIT_CODE),
        TestReturn::Failed(e) => (Some("error: "@ + e@), protocol::FAIL_EXIT_CODE),
        TestReturn::Panicked => (Some("error: panicked"@), protocol::FAIL_EXIT_CODE),
    }
}

/// How a test process ends.
pub fn end_of_test(r: &TestReturn) -> (e: (Option<String>, i32))
    ensures
        (e.0.deep_view(), e.1) == ending_of(*r),
{
    match r {
        TestReturn::Passed => (None, 0),
        TestReturn::Skipped(skip) => (
            Some(protocol::encode_skip(&skip.0)),
            protocol::SKIP_EXIT_CODE,
        ),
        TestReturn::NotRetryEligible(e) => (
            Some(e.clone()),
            protocol::FAIL_NOT_RETRYABLE_EXIT_CODE,
        ),
        TestReturn::Failed(e) => {
            let mut s = "error: ".to_owned();
            s.append(e);
            (Some(s), protocol::FAIL_EXIT_CODE)
        },
        TestReturn::Panicked => (Some("error: panicked".to_owned()), protocol::FAIL_EXIT_CODE),
    }
}

/// What is wrong where no test has that name.
pub open spec fn no_such_test_text(name: Seq<char>) -> Seq<char> {
    "cargo-rigtest: no test named '"@ + name + "'"@
}

/// What is wrong where no test has that name.
pub fn no_such_test(name: &str) -> (s: String)
    ensures
        s@ == no_such_test_text(name@),
{
    let mut s = "cargo-rigtest: no test named '".to_owned();
    s.append(name);
    s.append("'");
    s
}

/// The position of the first registered test of that name.
pub open spec fn position_of(cases: Seq<&TestCase>, name: Seq<char>) -> Option<int>
    decreases cases.len(),
{
    if cases.len() == 0 {
        None
    } else if cases[0].name@ == name {
        Some(0)
    } else {
        match position_of(cases.skip(1), name) {
            Some(i) => Some(i + 1),
            None => None,
        }
    }
}

/// The first registered test of that name, by its position.
pub fn find_case(cases: &Vec<&TestCase>, name: &str) -> (r: Result<usize, String>)
    ensures
        match r {
            Ok(i) => position_of(cases@, name@) == Some(i as int) && i < cases@.len(),
            Err(e) => position_of(cases@, name@) is None && e@
                == "cargo-rigtest: no test named '"@ + name@ + "'"@,
        },
{
    let mut i: usize = 0;
    assert(cases@.skip(0) =~= cases@);
    while i < cases.len()
        invariant
            i <= cases@.len(),
            position_of(cases@, name@) == match position_of(cases@.skip(i as int), name@) {
                Some(k) => Some(k + i),
                None => None,
            },
        decreases cases@.len() - i,
    {
        assert(cases@.skip(i as int).skip(1) =~= cases@.skip(i + 1));
        if text::same(cases[i].name, name) {
            return Ok(i);
        }
        i += 1;
    }
    Err(no_such_test(name))
}

/// What a part of a test came to: its setup or its teardown.
#[derive(Debug)]
pub enum Stage {
    Done,
    /// It returned an error.
    Failed(String),
    Panicked,
}

/// What is wrong with a test whose part of that name came to `stage`, if
/// anything.
pub open spec fn stage_error_of(name: Seq<char>, stage: Stage) -> Option<Seq<char>> {
    match stage {
        Stage::Done => None,
        Stage::Failed(e) => Some(name + " failed: "@ + e@),
        Stage::Panicked => Some(name + " panicked"@),
    }
}

/// What is wrong with a test whose part of that name came to `stage`, if
/// anything.
pub fn stage_error(name: &str, stage: &Stage) -> (r: Option<String>)
    ensures
        r.deep_view() == stage_error_of(name@, *stage),
{
    match stage {
        Stage::Done => None,
        Stage::Failed(e) => {
            let mut s = name.to_owned();
            s.append(" failed: ");
            s.append(e);
            Some(s)
        },
        Stage::Panicked => {
            let mut s = name.to_owned();
            s.append(" panicked");
            Some(s)
        },
    }
}

// ── laws ────────────────────────────────────────────────────────────────────

/// The coordinator learns from a test process what its test came to: that it
/// passed, that it was skipped, and whether a failure may be retried.
pub proof fn law_outcome_read_back(r: TestReturn, stdout: Seq<char>, stderr: Seq<char>)
    ensures
        ({
            let o = protocol::outcome_of(Some(ending_of(r).1), stdout, stderr);
            &&& o is Passed <==> r is Passed
            &&& o is Skipped <==> r is Skipped
            &&& (o matches protocol::SubprocessOutcomeV::Failed {
                reason,
                stdout,
                stderr,
                kind,
                retry_eligible,
            } && !retry_eligible) <==> r is NotRetryEligible
        }),
{
}

/// The coordinator learns the reason of a skipped test, where it is a single
/// line, whatever the test wrote on lines of its own before.
pub proof fn law_skip_read_back(skip: Skip, before: Seq<char>, after: Seq<char>, stdout: Seq<char>)
    requires
        before.len() == 0 || before.last() == '\n',
        forall|i: int|
            0 <= i < text::lines(before).len() ==> text::after_prefix(
                #[trigger] text::lines(before)[i],
                protocol::skip_prefix()@,
            ) is None,
        text::first_at(skip.0@, '\n') == skip.0@.len(),
        skip.0@.len() > 0 ==> skip.0@.last() != '\r',
    ensures
        ({
            let (line, code) = ending_of(TestReturn::Skipped(skip));
            &&& line is Some
            &&& protocol::outcome_of(
                Some(code),
                stdout,
                before + line->0 + seq!['\n'] + after,
            ) == protocol::SubprocessOutcomeV::Skipped(skip.0@)
        }),
{
    protocol::law_skip_reason_read_back(before, skip.0@, after);
}

/// A test process writes nothing and ends with success exactly where its test
/// passed; otherwise it writes what its test returned, or that it panicked,
/// and ends with another exit code.
pub proof fn law_ending_tells_what_was_returned(r: TestReturn)
    ensures
        ({
            let (line, code) = ending_of(r);
            &&& code == 0 <==> r is Passed
            &&& line is None <==> r is Passed
            &&& r matches TestReturn::Skipped(skip) ==> text::contains(line->0, skip.0@)
            &&& r matches TestReturn::NotRetryEligible(e) ==> text::contains(line->0, e@)
            &&& r matches TestReturn::Failed(e) ==> text::contains(line->0, e@)
        }),
{
    let none: Seq<char> = seq![];
    match r {
        TestReturn::Skipped(skip) => {
            let e = skip.0@;
            assert(e.subrange(0, e.len() as int) =~= e);
            assert(text::occurs_at(e, e, 0));
            text::lemma_contains_within(protocol::skip_prefix()@, e, none, e);
            assert(protocol::skip_prefix()@ + e + none =~= protocol::skip_prefix()@ + e);
        },
        TestReturn::NotRetryEligible(e) => {
            assert(e@.subrange(0, e@.len() as int) =~= e@);
            assert(text::occurs_at(e@, e@, 0));
        },
        TestReturn::Failed(e) => {
            assert(e@.subrange(0, e@.len() as int) =~= e@);
            assert(text::occurs_at(e@, e@, 0));
            text::lemma_contains_within("error: "@, e@, none, e@);
            assert("error: "@ + e@ + none =~= "error: "@ + e@);
        },
        _ => {},
    }
}

/// A test is found by its name: the first of those that have it, and none
/// exactly where none has it.
pub proof fn law_first_of_the_name_is_found(cases: Seq<&TestCase>, name: Seq<char>)
    ensures
        match position_of(cases, name) {
            Some(i) => {
                &&& 0 <= i < cases.len()
                &&& cases[i].name@ == name
                &&& forall|k: int| 0 <= k < i ==> (#[trigger] cases[k]).name@ != name
            },
            None => forall|k: int| 0 <= k < cases.len() ==> (#[trigger] cases[k]).name@ != name,
        },
    decreases cases.len(),
{
    if cases.len() > 0 && cases[0].name@ != name {
        let rest = cases.skip(1);
        law_first_of_the_name_is_found(rest, name);
        assert forall|k: int| 0 < k < cases.len() implies cases[k] == rest[k - 1] by {}
        assert forall|k: int|
            (position_of(cases, name) matches Some(i) ==> k < i) && 0 <= k
                < cases.len() implies (#[trigger] cases[k]).name@ != name by {
            if k > 0 {
                assert(cases[k] == rest[k - 1]);
                assert(rest[k - 1].name@ != name);
            }
        }
    }
}

/// Something is wrong with a part of a test exactly where the part did not
/// come to its end; what is said then names the part, and tells its error where
/// it returned one.
pub proof fn law_stage_error(name: Seq<char>, stage: Stage)
    ensures
        stage_error_of(name, stage) is None <==> stage is Done,
        stage_error_of(name, stage) matches Some(s) ==> name.is_prefix_of(s),
        stage matches Stage::Failed(e) ==> text::contains(stage_error_of(name, stage)->0, e@),
        stage matches Stage::Failed(e) ==> stage_error_of(name, stage)
            != stage_error_of(name, Stage::Panicked),
{
    let none: Seq<char> = seq![];
    if let Some(s) = stage_error_of(name, stage) {
        assert(s.take(name.len() as int) =~= name);
    }
    if let Stage::Failed(e) = stage {
        assert(e@.subrange(0, e@.len() as int) =~= e@);
        assert(text::occurs_at(e@, e@, 0));
        text::lemma_contains_within(name + " failed: "@, e@, none, e@);
        assert(name + " failed: "@ + e@ + none =~= name + " failed: "@ + e@);
        reveal_strlit(" failed: ");
        reveal_strlit(" panicked");
        let a = name + " failed: "@ + e@;
        let b = name + " panicked"@;
        assert(a[name.len() as int + 1] == 'f');
        assert(b[name.len() as int + 1] == 'p');
    }
}

/// What is said where no test has a name tells the name, in quotes.
pub proof fn law_missing_test_is_named(name: Seq<char>)
    ensures
        text::contains(no_such_test_text(name), "'"@ + name + "'"@),
{
    reveal_strlit("cargo-rigtest: no test named '");
    reveal_strlit("cargo-rigtest: no test named ");
    reveal_strlit("'");
    let head = "cargo-rigtest: no test named "@;
    assert("cargo-rigtest: no test named '"@ =~= head + "'"@);
    assert(no_such_test_text(name) =~= head + ("'"@ + name + "'"@));
    text::lemma_stands(head, "'"@ + name + "'"@, seq![]);
}

} // verus!
