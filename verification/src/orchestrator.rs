//! A run of a suite: which of its test cases run, in what order, and what the
//! run comes to.

use crate::duration::Duration;
use crate::registry::TestCase;
use crate::retry::Verdict;
use crate::schedule;
use crate::schedule::Schedule;
use crate::scheduler::RuntimeArgs;
use crate::text;
use rand::seq::SliceRandom;
use rand::SeedableRng;
use vstd::prelude::*;
use vstd::string::*;

verus! {

// ── selection ───────────────────────────────────────────────────────────────

/// Whether the test's name holds the filter, where there is one.
pub open spec fn named_by(tc: TestCase, filter: Option<Seq<char>>) -> bool {
    filter matches Some(f) ==> text::contains(tc.name@, f)
}

/// The cases whose name holds the filter, in order; all where there is none.
pub open spec fn filtered<'a>(cases: Seq<&'a TestCase>, filter: Option<Seq<char>>) -> Seq<
    &'a TestCase,
> {
    cases.filter(|tc: &'a TestCase| named_by(*tc, filter))
}

/// The cases whose name holds the filter, in order; all where there is none.
pub fn apply_filter<'a>(cases: &Vec<&'a TestCase>, filter: Option<&str>) -> (r: Vec<&'a TestCase>)
    ensures
        r@ == filtered(cases@, filter.deep_view()),
{
    let ghost f = filter.deep_view();
    let mut out: Vec<&'a TestCase> = Vec::new();
    let mut i: usize = 0;
    assert(filtered(cases@.take(0), f) =~= seq![]) by {
        reveal(Seq::filter);
    }
    while i < cases.len()
        invariant
            i <= cases@.len(),
            f == filter.deep_view(),
            out@ == filtered(cases@.take(i as int), f),
        decreases cases@.len() - i,
    {
        let tc = cases[i];
        proof {
            assert(cases@.take(i + 1) =~= cases@.take(i as int).push(tc));
            text::lemma_filter_push(
                cases@.take(i as int),
                tc,
                |tc: &'a TestCase| named_by(*tc, f),
            );
        }
        let keep = match filter {
            Some(s) => text::has(tc.name, s),
            None => true,
        };
        if keep {
            out.push(tc);
        }
        i += 1;
    }
    assert(cases@.take(i as int) =~= cases@);
    out
}

/// Whether one of the test's tags is among `tags`.
pub open spec fn tagged(tc: TestCase, tags: Seq<&str>) -> bool {
    exists|i: int|
        0 <= i < tc.tags@.len() && text::names(tags).contains((#[trigger] tc.tags@[i])@)
}

/// Whether a test is selected by its tags: it has one of those to be included,
/// where there are any, and none of those to be excluded.
pub open spec fn selected(tc: TestCase, wanted: Seq<&str>, unwanted: Seq<&str>) -> bool {
    (wanted.len() == 0 || tagged(tc, wanted)) && !tagged(tc, unwanted)
}

/// The cases that are selected by their tags, in order.
pub open spec fn tag_filtered<'a>(
    cases: Seq<&'a TestCase>,
    wanted: Seq<&str>,
    unwanted: Seq<&str>,
) -> Seq<&'a TestCase> {
    cases.filter(|tc: &'a TestCase| selected(*tc, wanted, unwanted))
}

fn has_tag(tc: &TestCase, tags: &Vec<&str>) -> (r: bool)
    ensures
        r == tagged(*tc, tags@),
{
    let mut i: usize = 0;
    while i < tc.tags.len()
        invariant
            i <= tc.tags@.len(),
            forall|k: int|
                0 <= k < i ==> !text::names(tags@).contains((#[trigger] tc.tags@[k])@),
        decreases tc.tags@.len() - i,
    {
        let mut j: usize = 0;
        while j < tags.len()
            invariant
                j <= tags@.len(),
                i < tc.tags@.len(),
                forall|k: int| 0 <= k < j ==> (#[trigger] tags@[k])@ != tc.tags@[i as int]@,
            decreases tags@.len() - j,
        {
            if text::same(tags[j], tc.tags[i]) {
                assert(text::names(tags@)[j as int] == tc.tags@[i as int]@);
                return true;
            }
            j += 1;
        }
        assert(!text::names(tags@).contains(tc.tags@[i as int]@)) by {
            if text::names(tags@).contains(tc.tags@[i as int]@) {
                let k = text::names(tags@).index_of(tc.tags@[i as int]@);
                assert(tags@[k]@ == tc.tags@[i as int]@);
            }
        }
        i += 1;
    }
    false
}

/// The cases that are selected by their tags, in order.
pub fn apply_tag_filter<'a>(
    cases: &Vec<&'a TestCase>,
    wanted: &Vec<&str>,
    unwanted: &Vec<&str>,
) -> (r: Vec<&'a TestCase>)
    ensures
        r@ == tag_filtered(cases@, wanted@, unwanted@),
{
    let mut out: Vec<&'a TestCase> = Vec::new();
    let mut i: usize = 0;
    assert(tag_filtered(cases@.take(0), wanted@, unwanted@) =~= seq![]) by {
        reveal(Seq::filter);
    }
    while i < cases.len()
        invariant
            i <= cases@.len(),
            out@ == tag_filtered(cases@.take(i as int), wanted@, unwanted@),
        decreases cases@.len() - i,
    {
        let tc = cases[i];
        proof {
            assert(cases@.take(i + 1) =~= cases@.take(i as int).push(tc));
            text::lemma_filter_push(
                cases@.take(i as int),
                tc,
                |tc: &'a TestCase| selected(*tc, wanted@, unwanted@),
            );
        }
        if (wanted.len() == 0 || has_tag(tc, wanted)) && !has_tag(tc, unwanted) {
            out.push(tc);
        }
        i += 1;
    }
    assert(cases@.take(i as int) =~= cases@);
    out
}

/// The tags in `values`, each once and without empty ones, in order.
pub fn tag_set(values: &Vec<String>) -> (r: Vec<&str>)
    ensures
        text::ascending(text::names(r@)),
        forall|t: Seq<char>| #[trigger]
            text::names(r@).contains(t) <==> t.len() > 0 && values.deep_view().contains(t),
{
    let ghost all = values.deep_view();
    let mut out: Vec<&str> = Vec::new();
    let mut i: usize = 0;
    while i < values.len()
        invariant
            i <= values@.len(),
            all == values.deep_view(),
            text::ascending(text::names(out@)),
            forall|t: Seq<char>| #[trigger]
                text::names(out@).contains(t) <==> t.len() > 0 && all.take(i as int).contains(t),
        decreases values@.len() - i,
    {
        let ghost was = out@;
        let value = values[i].as_str();
        proof {
            assert(all.take(i + 1) =~= all.take(i as int).push(value@));
            assert forall|t: Seq<char>| #[trigger]
                all.take(i + 1).contains(t) <==> (all.take(i as int).contains(t) || t == value@) by {
                let a = all.take(i as int);
                if a.contains(t) {
                    let k = a.index_of(t);
                    assert(a.push(value@)[k] == t);
                }
                assert(a.push(value@)[i as int] == value@);
                if a.push(value@).contains(t) {
                    let k = a.push(value@).index_of(t);
                    if k < i {
                        assert(a[k] == t);
                    }
                }
            }
        }
        if value.unicode_len() > 0 {
            text::insert_name(&mut out, value);
        }
        assert forall|t: Seq<char>| #[trigger]
            text::names(out@).contains(t) <==> t.len() > 0 && all.take(i + 1).contains(t) by {
            assert(text::names(was).contains(t) <==> t.len() > 0 && all.take(i as int).contains(t));
        }
        i += 1;
    }
    assert(all.take(i as int) =~= all);
    out
}

// ── order ───────────────────────────────────────────────────────────────────

/// The numbers below `n`, in order.
pub open spec fn numbers_below(n: int) -> Seq<usize> {
    Seq::new(n as nat, |i: int| i as usize)
}

/// The order into which a seed brings a list of numbers.
pub uninterp spec fn shuffled(order: Seq<usize>, seed: u64) -> Seq<usize>;

/// Shuffles a list with `rand`'s `SliceRandom::shuffle` and the generator
/// `rand_chacha::ChaCha8Rng` made from the seed. The result is a function of
/// the list and the seed, and has the elements of the list; which order it has
/// is not stated.
#[verifier::external_body]
fn shuffle_numbers(order: Vec<usize>, seed: u64) -> (r: Vec<usize>)
    ensures
        r@ == shuffled(order@, seed),
        r@.to_multiset() == order@.to_multiset(),
{
    let mut order = order;
    order.shuffle(&mut rand_chacha::ChaCha8Rng::seed_from_u64(seed));
    order
}

/// The order into which a seed brings `n` cases, as their positions.
pub open spec fn order_of(n: int, seed: u64) -> Seq<usize> {
    shuffled(numbers_below(n), seed)
}

/// Whether `order` holds each position below `n` exactly once.
pub open spec fn is_permutation(order: Seq<usize>, n: int) -> bool {
    &&& order.len() == n
    &&& order.no_duplicates()
    &&& forall|i: int| 0 <= i < n ==> 0 <= #[trigger] order[i] < n
}

/// Whether `r` are the cases in the order into which the seed brings them.
pub open spec fn in_seed_order<'a>(
    r: Seq<&'a TestCase>,
    cases: Seq<&'a TestCase>,
    seed: u64,
) -> bool {
    let order = order_of(cases.len() as int, seed);
    &&& is_permutation(order, cases.len() as int)
    &&& r.len() == cases.len()
    &&& forall|i: int| 0 <= i < r.len() ==> #[trigger] r[i] == cases[order[i] as int]
}

/// The cases in the order into which the seed brings them.
pub open spec fn brought_to_order<'a>(cases: Seq<&'a TestCase>, seed: u64) -> Seq<&'a TestCase> {
    Seq::new(cases.len(), |i: int| cases[order_of(cases.len() as int, seed)[i] as int])
}

proof fn lemma_permutation(order: Seq<usize>, n: usize)
    requires
        order.to_multiset() == numbers_below(n as int).to_multiset(),
    ensures
        is_permutation(order, n as int),
{
    let base = numbers_below(n as int);
    assert(base.no_duplicates());
    base.lemma_multiset_has_no_duplicates();
    order.to_multiset_ensures();
    base.to_multiset_ensures();
    order.lemma_multiset_has_no_duplicates_conv();
    assert forall|i: int| 0 <= i < n implies 0 <= #[trigger] order[i] < n by {
        assert(order.contains(order[i]));
        assert(order.to_multiset().count(order[i]) > 0);
        assert(base.contains(order[i]));
    }
}

/// The cases in the order into which the seed brings them.
pub fn shuffle_cases<'a>(cases: &Vec<&'a TestCase>, seed: u64) -> (r: Vec<&'a TestCase>)
    ensures
        in_seed_order(r@, cases@, seed),
{
    let n: usize = cases.len();
    let mut order: Vec<usize> = Vec::new();
    let mut i: usize = 0;
    while i < n
        invariant
            i <= n,
            order@ == numbers_below(i as int),
        decreases n - i,
    {
        order.push(i);
        i += 1;
        assert(order@ =~= numbers_below(i as int));
    }
    let order = shuffle_numbers(order, seed);
    proof {
        lemma_permutation(order@, n);
    }
    let mut out: Vec<&'a TestCase> = Vec::new();
    let mut j: usize = 0;
    while j < n
        invariant
            j <= n,
            n == cases@.len(),
            is_permutation(order@, n as int),
            out@.len() == j,
            forall|k: int| 0 <= k < j ==> #[trigger] out@[k] == cases@[order@[k] as int],
        decreases n - j,
    {
        out.push(cases[order[j]]);
        j += 1;
    }
    out
}

// ── the plan of a run ───────────────────────────────────────────────────────

/// How many cases run at a time: one where their output is not captured, else
/// as many as asked for, or as many as the machine is good for.
pub open spec fn cap_of(no_capture: bool, jobs: Option<usize>, default_jobs: usize) -> usize {
    if no_capture {
        1
    } else {
        match jobs {
            Some(n) => n,
            None => default_jobs,
        }
    }
}

/// How many cases run at a time.
pub fn job_cap(no_capture: bool, jobs: Option<usize>, default_jobs: usize) -> (cap: usize)
    ensures
        cap == cap_of(no_capture, jobs, default_jobs),
{
    if no_capture {
        1
    } else {
        match jobs {
            Some(n) => n,
            None => default_jobs,
        }
    }
}

/// Whether one of the test's tags is among `values`; an empty tag never is.
pub open spec fn carries(tc: TestCase, values: Seq<Seq<char>>) -> bool {
    exists|i: int|
        0 <= i < tc.tags@.len() && (#[trigger] tc.tags@[i])@.len() > 0 && values.contains(
            tc.tags@[i]@,
        )
}

/// Whether the arguments of a run select a test: its name holds the filter, it
/// carries one of the tags where any are asked for, and none of those that are
/// not wanted.
pub open spec fn chosen(
    tc: TestCase,
    filter: Option<Seq<char>>,
    tag: Seq<Seq<char>>,
    not_tag: Seq<Seq<char>>,
) -> bool {
    &&& named_by(tc, filter)
    &&& (forall|i: int| 0 <= i < tag.len() ==> (#[trigger] tag[i]).len() == 0) || carries(tc, tag)
    &&& !carries(tc, not_tag)
}

/// The cases that the arguments of a run select, in their given order.
pub open spec fn selected_cases<'a>(
    cases: Seq<&'a TestCase>,
    filter: Option<Seq<char>>,
    tag: Seq<Seq<char>>,
    not_tag: Seq<Seq<char>>,
) -> Seq<&'a TestCase> {
    cases.filter(|tc: &'a TestCase| chosen(*tc, filter, tag, not_tag))
}

proof fn lemma_tags(tc: TestCase, tags: Seq<&str>, values: Seq<Seq<char>>)
    requires
        tags_are(tags, values),
    ensures
        tagged(tc, tags) == carries(tc, values),
        tags.len() == 0 <==> forall|i: int|
            0 <= i < values.len() ==> (#[trigger] values[i]).len() == 0,
{
    if tagged(tc, tags) {
        let i = choose|i: int|
            0 <= i < tc.tags@.len() && text::names(tags).contains((#[trigger] tc.tags@[i])@);
        assert(tc.tags@[i]@.len() > 0);
    }
    if carries(tc, values) {
        let i = choose|i: int|
            0 <= i < tc.tags@.len() && (#[trigger] tc.tags@[i])@.len() > 0 && values.contains(
                tc.tags@[i]@,
            );
        assert(text::names(tags).contains(tc.tags@[i]@));
    }
    if tags.len() > 0 {
        let t = text::names(tags)[0];
        assert(text::names(tags).contains(t));
        let i = values.index_of(t);
        assert(values[i].len() > 0);
    }
    assert forall|i: int| tags.len() == 0 && 0 <= i < values.len() implies (
    #[trigger] values[i]).len() == 0 by {
        assert(values.contains(values[i]));
        assert(!text::names(tags).contains(values[i]));
    }
}

proof fn lemma_selected<'a>(
    cases: Seq<&'a TestCase>,
    filter: Option<Seq<char>>,
    wanted: Seq<&str>,
    unwanted: Seq<&str>,
    tag: Seq<Seq<char>>,
    not_tag: Seq<Seq<char>>,
)
    requires
        tags_are(wanted, tag),
        tags_are(unwanted, not_tag),
    ensures
        tag_filtered(filtered(cases, filter), wanted, unwanted) == selected_cases(
            cases,
            filter,
            tag,
            not_tag,
        ),
    decreases cases.len(),
{
    let p = |tc: &'a TestCase| named_by(*tc, filter);
    let q = |tc: &'a TestCase| selected(*tc, wanted, unwanted);
    let both = |tc: &'a TestCase| chosen(*tc, filter, tag, not_tag);
    if cases.len() == 0 {
        reveal(Seq::filter);
    } else {
        let head = cases.drop_last();
        let x = cases.last();
        lemma_selected(head, filter, wanted, unwanted, tag, not_tag);
        assert(cases =~= head.push(x));
        text::lemma_filter_push(head, x, p);
        text::lemma_filter_push(head.filter(p), x, q);
        text::lemma_filter_push(head, x, both);
        lemma_tags(*x, wanted, tag);
        lemma_tags(*x, unwanted, not_tag);
    }
}

/// The cases that the arguments of a run select, in the order into which the
/// seed brings them.
pub fn select_cases<'a>(args: &RuntimeArgs, cases: &Vec<&'a TestCase>, seed: u64) -> (r: Vec<
    &'a TestCase,
>)
    ensures
        in_seed_order(
            r@,
            selected_cases(
                cases@,
                args.filter.deep_view(),
                args.tag.deep_view(),
                args.not_tag.deep_view(),
            ),
            seed,
        ),
{
    let named = match &args.filter {
        Some(f) => apply_filter(cases, Some(f.as_str())),
        None => apply_filter(cases, None),
    };
    let wanted = tag_set(&args.tag);
    let unwanted = tag_set(&args.not_tag);
    let chosen = apply_tag_filter(&named, &wanted, &unwanted);
    proof {
        lemma_selected(
            cases@,
            args.filter.deep_view(),
            wanted@,
            unwanted@,
            args.tag.deep_view(),
            args.not_tag.deep_view(),
        );
    }
    shuffle_cases(&chosen, seed)
}

/// The plan of a run: the cases that its arguments select, in the order into
/// which the seed brings them.
pub fn plan_run<'a>(
    args: &RuntimeArgs,
    cases: &Vec<&'a TestCase>,
    seed: u64,
    default_jobs: usize,
    suite_default: Option<Duration>,
) -> (r: Schedule<'a>)
    ensures
        r.plans(
            brought_to_order(
                selected_cases(
                    cases@,
                    args.filter.deep_view(),
                    args.tag.deep_view(),
                    args.not_tag.deep_view(),
                ),
                seed,
            ),
            cap_of(args.no_capture, args.jobs, default_jobs),
            args.retries,
            suite_default,
        ),
        ({
            let n = selected_cases(
                cases@,
                args.filter.deep_view(),
                args.tag.deep_view(),
                args.not_tag.deep_view(),
            ).len();
            is_permutation(order_of(n as int, seed), n as int)
        }),
{
    let ordered = select_cases(args, cases, seed);
    let cap: usize = job_cap(args.no_capture, args.jobs, default_jobs);
    assert(ordered@ =~= brought_to_order(
        selected_cases(
            cases@,
            args.filter.deep_view(),
            args.tag.deep_view(),
            args.not_tag.deep_view(),
        ),
        seed,
    ));
    Schedule::plan(ordered, cap, args.retries, suite_default)
}

/// Whether `tags` are the tags in `values`, each once and without empty ones.
pub open spec fn tags_are(tags: Seq<&str>, values: Seq<Seq<char>>) -> bool {
    &&& text::ascending(text::names(tags))
    &&& forall|t: Seq<char>| #[trigger]
        text::names(tags).contains(t) <==> t.len() > 0 && values.contains(t)
}

// ── what a run comes to ─────────────────────────────────────────────────────

/// The number of tests that passed and of those that were skipped.
#[derive(Clone, Copy, Debug, PartialEq, Eq, Structural)]
pub struct Tally {
    pub passed: usize,
    pub skipped: usize,
}

/// The number of tests among the first `n` with that outcome.
pub open spec fn count_of(verdicts: Seq<Verdict>, v: Verdict, n: int) -> int
    decreases n,
{
    if n <= 0 {
        0
    } else {
        count_of(verdicts, v, n - 1) + if verdicts[n - 1] == v {
            1int
        } else {
            0
        }
    }
}

/// Counts one more test.
pub fn tally(t: &mut Tally, verdict: Verdict)
    requires
        old(t).passed < usize::MAX,
        old(t).skipped < usize::MAX,
    ensures
        final(t).passed == old(t).passed + if verdict is Passed {
            1int
        } else {
            0
        },
        final(t).skipped == old(t).skipped + if verdict is Skipped {
            1int
        } else {
            0
        },
{
    match verdict {
        Verdict::Passed => {
            t.passed = t.passed + 1;
        },
        Verdict::Skipped => {
            t.skipped = t.skipped + 1;
        },
        Verdict::Failed => {},
    }
}

/// The number of tests that passed and of those that were skipped.
pub fn tally_all(verdicts: &Vec<Verdict>) -> (t: Tally)
    ensures
        t.passed == count_of(verdicts@, Verdict::Passed, verdicts@.len() as int),
        t.skipped == count_of(verdicts@, Verdict::Skipped, verdicts@.len() as int),
        t.passed + t.skipped + count_of(verdicts@, Verdict::Failed, verdicts@.len() as int)
            == verdicts@.len(),
{
    let mut t = Tally { passed: 0, skipped: 0 };
    let mut i: usize = 0;
    let n: usize = verdicts.len();
    while i < n
        invariant
            i <= n,
            n == verdicts@.len(),
            t.passed == count_of(verdicts@, Verdict::Passed, i as int),
            t.skipped == count_of(verdicts@, Verdict::Skipped, i as int),
            t.passed + t.skipped + count_of(verdicts@, Verdict::Failed, i as int) == i,
            count_of(verdicts@, Verdict::Failed, i as int) >= 0,
        decreases n - i,
    {
        tally(&mut t, verdicts[i]);
        i += 1;
    }
    t
}

/// What a run comes to: a failure where a test neither passed nor was skipped,
/// else what the reporters say.
pub open spec fn suite_result(
    passed: nat,
    skipped: nat,
    total: nat,
    finish: Result<(), Seq<char>>,
) -> Result<(), Seq<char>> {
    if passed + skipped < total {
        Err(
            "Test suite failed: "@ + text::decimal(passed) + "/"@ + text::decimal(total)
                + " passed"@,
        )
    } else {
        finish
    }
}

/// What a run comes to.
pub fn conclude(passed: usize, skipped: usize, total: usize, finish: Result<(), String>) -> (r: Result<
    (),
    String,
>)
    requires
        passed + skipped <= total,
    ensures
        match r {
            Ok(()) => passed + skipped == total && finish is Ok,
            Err(e) => suite_result(
                passed as nat,
                skipped as nat,
                total as nat,
                match finish {
                    Ok(()) => Ok(()),
                    Err(f) => Err(f@),
                },
            ) == Err::<(), Seq<char>>(e@),
        },
{
    let failed: usize = total - passed - skipped;
    if failed > 0 {
        let mut s = "Test suite failed: ".to_owned();
        s.append(&text::number(passed as u128));
        s.append("/");
        s.append(&text::number(total as u128));
        s.append(" passed");
        Err(s)
    } else {
        finish
    }
}

/// Why a run does not go on.
#[derive(Debug)]
pub enum RunError {
    /// The probes stopped it.
    Preflight(String),
    /// Anything else did.
    Other(String),
}

/// The exit code of a test program.
pub open spec fn exit_code_of(result: Result<(), RunError>) -> i32 {
    match result {
        Ok(()) => 0i32,
        Err(RunError::Preflight(m)) => 2i32,
        Err(RunError::Other(m)) => 1i32,
    }
}

/// The exit code of a test program.
pub fn exit_code(result: &Result<(), RunError>) -> (code: i32)
    ensures
        code == exit_code_of(*result),
{
    match result {
        Ok(()) => 0,
        Err(RunError::Preflight(_)) => 2,
        Err(RunError::Other(_)) => 1,
    }
}

// ── names and places ────────────────────────────────────────────────────────

/// Whether `c` is a hexadecimal digit.
pub open spec fn hex_digit(c: char) -> bool {
    ||| '0' <= c <= '9'
    ||| 'A' <= c <= 'F'
    ||| 'a' <= c <= 'f'
}

/// Whether the last sixteen characters are hexadecimal digits behind a dash.
pub open spec fn ends_in_hash(stem: Seq<char>) -> bool {
    &&& stem.len() >= 17
    &&& stem[stem.len() - 17] == '-'
    &&& forall|i: int| stem.len() - 16 <= i < stem.len() ==> hex_digit(#[trigger] stem[i])
}

/// `stem` without the hash that the build puts behind a program's name.
pub fn strip_hash_suffix(stem: &str) -> (r: &str)
    ensures
        r@ == if ends_in_hash(stem@) {
            stem@.take(stem@.len() - 17)
        } else {
            stem@
        },
{
    let c = text::chars_of(stem);
    let n: usize = c.len();
    if n < 17 {
        return stem;
    }
    if c[n - 17] != '-' {
        return stem;
    }
    let mut i: usize = n - 16;
    while i < n
        invariant
            c@ == stem@,
            n == c@.len(),
            n >= 17,
            n - 16 <= i <= n,
            c@[n - 17] == '-',
            forall|k: int| n - 16 <= k < i ==> hex_digit(#[trigger] c@[k]),
        decreases n - i,
    {
        let x = c[i];
        if !(('0' <= x && x <= '9') || ('A' <= x && x <= 'F') || ('a' <= x && x <= 'f')) {
            assert(!hex_digit(stem@[i as int]));
            return stem;
        }
        i += 1;
    }
    let r = stem.substring_char(0, n - 17);
    assert(r@ =~= stem@.take(stem@.len() - 17));
    r
}

/// The name of a program's report: the one that is set and not empty, else the
/// program's own, without its hash.
pub open spec fn suite_name_of(stem: Option<Seq<char>>, name: Option<Seq<char>>) -> Seq<char> {
    match name {
        Some(n) => if n.len() > 0 {
            n
        } else {
            own_suite_name(stem)
        },
        None => own_suite_name(stem),
    }
}

/// The name of a program's report that it has from the program.
pub open spec fn own_suite_name(stem: Option<Seq<char>>) -> Seq<char> {
    match stem {
        Some(s) => if ends_in_hash(s) {
            s.take(s.len() - 17)
        } else {
            s
        },
        None => "rigtest"@,
    }
}

/// The name of a program's report.
pub fn junit_suite_name(stem: Option<&str>, name: Option<&str>) -> (r: String)
    ensures
        r@ == suite_name_of(stem.deep_view(), name.deep_view()),
{
    if let Some(n) = name {
        if n.unicode_len() > 0 {
            return n.to_owned();
        }
    }
    match stem {
        Some(s) => strip_hash_suffix(s).to_owned(),
        None => {
            let own = strip_hash_suffix("rigtest");
            proof {
                reveal_strlit("rigtest");
            }
            own.to_owned()
        },
    }
}

/// The number of leading components of a path up to and with the last one
/// named `target`; none where none is.
pub open spec fn target_end(components: Seq<Seq<char>>) -> int
    decreases components.len(),
{
    if components.len() == 0 {
        0
    } else if components.last() == "target"@ {
        components.len() as int
    } else {
        target_end(components.drop_last())
    }
}

/// Where a program writes its report unless told otherwise, as components of a
/// path: below the innermost directory named `target` that the program lies
/// in, or below `target` where it lies in none.
pub open spec fn junit_path_of(components: Seq<Seq<char>>) -> Seq<Seq<char>> {
    (if target_end(components) > 0 {
        components.take(target_end(components))
    } else {
        seq!["target"@]
    }).push("rigtest"@).push("junit.xml"@)
}

/// Where a program writes its report unless told otherwise.
pub fn default_junit_output_path(components: &Vec<String>) -> (r: Vec<String>)
    ensures
        r.deep_view() == junit_path_of(components.deep_view()),
{
    let ghost all = components.deep_view();
    let mut n: usize = components.len();
    assert(all.take(n as int) =~= all);
    while n > 0 && !text::same(&components[n - 1], "target")
        invariant
            n <= components@.len(),
            all == components.deep_view(),
            target_end(all) == target_end(all.take(n as int)),
        decreases n,
    {
        proof {
            assert(all.take(n as int).last() == components@[n - 1]@);
            assert(all.take(n as int).drop_last() =~= all.take(n - 1));
        }
        n -= 1;
    }
    proof {
        if n > 0 {
            assert(all.take(n as int).last() == components@[n - 1]@);
        }
    }
    let mut out: Vec<String> = Vec::new();
    let mut i: usize = 0;
    while i < n
        invariant
            i <= n <= components@.len(),
            out@.len() == i,
            forall|k: int| 0 <= k < i ==> (#[trigger] out@[k])@ == components@[k]@,
        decreases n - i,
    {
        out.push(components[i].clone());
        i += 1;
    }
    if n == 0 {
        out.push("target".to_owned());
    }
    out.push("rigtest".to_owned());
    out.push("junit.xml".to_owned());
    assert(out.deep_view() =~= junit_path_of(all));
    out
}

/// The additional reporter that a run is asked for.
#[derive(Clone, Copy, Debug, PartialEq, Eq, Structural)]
pub enum ReporterKind {
    Junit,
}

/// What is wrong with the name of an additional reporter, if anything.
pub open spec fn reporter_error(name: Option<Seq<char>>) -> Option<Seq<char>> {
    match name {
        Some(n) if n != "junit"@ => Some(
            "cargo-rigtest: unknown --reporter '"@ + n + "' (expected 'junit')"@,
        ),
        _ => None,
    }
}

/// The additional reporter of that name.
pub fn reporter_kind(name: Option<&str>) -> (r: Result<Option<ReporterKind>, String>)
    ensures
        match r {
            Ok(kind) => reporter_error(name.deep_view()) is None && (kind is Some <==> name is Some),
            Err(e) => reporter_error(name.deep_view()) == Some(e@),
        },
{
    match name {
        None => Ok(None),
        Some(n) => if text::same(n, "junit") {
            Ok(Some(ReporterKind::Junit))
        } else {
            let mut e = "cargo-rigtest: unknown --reporter '".to_owned();
            e.append(n);
            e.append("' (expected 'junit')");
            Err(e)
        },
    }
}

/// How often each of the things is registered that a program may have once.
#[derive(Clone, Copy, Debug)]
pub struct Registrations {
    pub preflight: usize,
    pub global_setup: usize,
    pub global_teardown: usize,
    pub default_timeout: usize,
    pub http_client: usize,
    pub ssh_client: usize,
}

/// What is wrong with something that is registered `found` times, if anything.
pub open spec fn singleton_error(what: Seq<char>, found: nat) -> Option<Seq<char>> {
    if found <= 1 {
        None
    } else {
        Some(
            "cargo-rigtest: at most one "@ + what + " may be defined, found "@ + text::decimal(
                found,
            ),
        )
    }
}

/// The first of two errors.
pub open spec fn first_of(a: Option<Seq<char>>, b: Option<Seq<char>>) -> Option<Seq<char>> {
    if a is Some {
        a
    } else {
        b
    }
}

/// What is wrong with the registrations of a program, if anything.
pub open spec fn registrations_error(r: Registrations) -> Option<Seq<char>> {
    first_of(
        singleton_error("#[preflight] function"@, r.preflight as nat),
        first_of(
            singleton_error("#[global_setup] function"@, r.global_setup as nat),
            first_of(
                singleton_error("#[global_teardown] function"@, r.global_teardown as nat),
                first_of(
                    singleton_error(
                        "#[rigtest::main(default_timeout = …)]"@,
                        r.default_timeout as nat,
                    ),
                    first_of(
                        singleton_error(
                            "#[rigtest::main(http_client = …)]"@,
                            r.http_client as nat,
                        ),
                        singleton_error("#[rigtest::main(ssh_client = …)]"@, r.ssh_client as nat),
                    ),
                ),
            ),
        ),
    )
}

fn check_singleton(what: &str, found: usize) -> (r: Option<String>)
    ensures
        r.deep_view() == singleton_error(what@, found as nat),
{
    if found <= 1 {
        None
    } else {
        let mut e = "cargo-rigtest: at most one ".to_owned();
        e.append(what);
        e.append(" may be defined, found ");
        e.append(&text::number(found as u128));
        Some(e)
    }
}

fn either(a: Option<String>, b: Option<String>) -> (r: Option<String>)
    ensures
        r.deep_view() == first_of(a.deep_view(), b.deep_view()),
{
    if a.is_some() {
        a
    } else {
        b
    }
}

/// What is wrong with the registrations of a program, if anything.
pub fn check_singleton_registrations(r: &Registrations) -> (e: Option<String>)
    ensures
        e.deep_view() == registrations_error(*r),
{
    let ssh = check_singleton("#[rigtest::main(ssh_client = …)]", r.ssh_client);
    let http = check_singleton("#[rigtest::main(http_client = …)]", r.http_client);
    let timeout = check_singleton("#[rigtest::main(default_timeout = …)]", r.default_timeout);
    let teardown = check_singleton("#[global_teardown] function", r.global_teardown);
    let setup = check_singleton("#[global_setup] function", r.global_setup);
    let preflight = check_singleton("#[preflight] function", r.preflight);
    either(preflight, either(setup, either(teardown, either(timeout, either(http, ssh)))))
}

// ── laws ────────────────────────────────────────────────────────────────────

/// The same seed brings the same cases into the same order.
pub proof fn law_seed_fixes_order<'a>(
    a: Seq<&'a TestCase>,
    b: Seq<&'a TestCase>,
    cases: Seq<&'a TestCase>,
    seed: u64,
)
    requires
        in_seed_order(a, cases, seed),
        in_seed_order(b, cases, seed),
    ensures
        a == b,
{
    assert(a =~= b);
}

/// Every test of a run has one outcome: the numbers of those that passed, were
/// skipped and failed add up.
pub proof fn law_every_test_counts(verdicts: Seq<Verdict>, n: int)
    requires
        0 <= n <= verdicts.len(),
    ensures
        count_of(verdicts, Verdict::Passed, n) + count_of(verdicts, Verdict::Skipped, n)
            + count_of(verdicts, Verdict::Failed, n) == n,
    decreases n,
{
    if n > 0 {
        law_every_test_counts(verdicts, n - 1);
    }
}

/// Neither filter adds, repeats or reorders a case, and they can be applied in
/// either order.
pub proof fn law_filters_commute<'a>(
    cases: Seq<&'a TestCase>,
    filter: Option<Seq<char>>,
    wanted: Seq<&str>,
    unwanted: Seq<&str>,
)
    ensures
        tag_filtered(filtered(cases, filter), wanted, unwanted) == filtered(
            tag_filtered(cases, wanted, unwanted),
            filter,
        ),
    decreases cases.len(),
{
    let p = |tc: &'a TestCase| named_by(*tc, filter);
    let q = |tc: &'a TestCase| selected(*tc, wanted, unwanted);
    if cases.len() == 0 {
        reveal(Seq::filter);
    } else {
        let head = cases.drop_last();
        let x = cases.last();
        law_filters_commute(head, filter, wanted, unwanted);
        assert(cases =~= head.push(x));
        text::lemma_filter_push(head, x, p);
        text::lemma_filter_push(head, x, q);
        text::lemma_filter_push(head.filter(p), x, q);
        text::lemma_filter_push(head.filter(q), x, p);
    }
}

proof fn lemma_permutation_multiset(order: Seq<usize>, n: usize)
    requires
        is_permutation(order, n as int),
    ensures
        order.to_multiset() == numbers_below(n as int).to_multiset(),
{
    let base = numbers_below(n as int);
    assert(base.no_duplicates());
    order.unique_seq_to_set();
    base.unique_seq_to_set();
    assert forall|x: usize| order.to_set().contains(x) implies base.to_set().contains(x) by {
        let i = order.index_of(x);
        assert(order[i] < n);
        assert(base[x as int] == x);
    }
    assert(order.to_set().subset_of(base.to_set()));
    vstd::seq_lib::seq_to_set_is_finite(base);
    vstd::seq_lib::seq_to_set_is_finite(order);
    vstd::set_lib::lemma_subset_equality(order.to_set(), base.to_set());
    order.lemma_multiset_has_no_duplicates();
    base.lemma_multiset_has_no_duplicates();
    order.to_multiset_ensures();
    base.to_multiset_ensures();
    assert forall|x: usize| #[trigger] order.to_multiset().count(x) == base.to_multiset().count(x) by {
        assert(order.to_set().contains(x) <==> order.contains(x));
        assert(base.to_set().contains(x) <==> base.contains(x));
        assert(order.to_multiset().contains(x) <==> order.contains(x));
        assert(base.to_multiset().contains(x) <==> base.contains(x));
    }
    assert(order.to_multiset() =~= base.to_multiset());
}

proof fn lemma_map_multiset<A, B>(a: Seq<A>, b: Seq<A>, f: spec_fn(A) -> B)
    requires
        a.to_multiset() == b.to_multiset(),
    ensures
        a.map_values(f).to_multiset() == b.map_values(f).to_multiset(),
    decreases a.len(),
{
    a.to_multiset_ensures();
    b.to_multiset_ensures();
    if a.len() == 0 {
        assert(a.map_values(f) =~= b.map_values(f));
    } else {
        let x = a.last();
        assert(a.contains(x));
        assert(b.to_multiset().count(x) > 0);
        let j = b.index_of(x);
        let rest = b.remove(j);
        assert(a.remove(a.len() - 1) =~= a.drop_last());
        lemma_map_multiset(a.drop_last(), rest, f);
        let fb = b.map_values(f);
        fb.to_multiset_ensures();
        a.drop_last().map_values(f).to_multiset_ensures();
        assert(fb.remove(j) =~= rest.map_values(f));
        assert(a.map_values(f) =~= a.drop_last().map_values(f).push(f(x)));
        assert(fb[j] == f(x));
        assert(fb.contains(f(x)));
        assert(fb.to_multiset().count(f(x)) > 0);
        assert(fb.to_multiset() =~= fb.remove(j).to_multiset().insert(f(x)));
    }
}

/// A plan of the cases in the order into which a seed brings them holds each of
/// them exactly once.
pub proof fn law_each_selected_case_is_planned_once<'a>(
    schedule: Schedule<'a>,
    cases: Seq<&'a TestCase>,
    seed: u64,
    cap: usize,
    retries: Option<usize>,
    suite_default: Option<Duration>,
)
    requires
        cases.len() <= usize::MAX,
        is_permutation(order_of(cases.len() as int, seed), cases.len() as int),
        schedule.plans(brought_to_order(cases, seed), cap, retries, suite_default),
    ensures
        schedule::cases_in(schedule.parallel()).to_multiset().add(
            schedule::cases_in(schedule.exclusive()).to_multiset(),
        ) == cases.to_multiset(),
{
    let n = cases.len() as usize;
    let order = order_of(n as int, seed);
    let base = numbers_below(n as int);
    let f = |i: usize| cases[i as int];
    schedule::law_every_case_is_planned_once(
        schedule,
        brought_to_order(cases, seed),
        cap,
        retries,
        suite_default,
    );
    lemma_permutation_multiset(order, n);
    lemma_map_multiset(order, base, f);
    assert(order.map_values(f) =~= brought_to_order(cases, seed));
    assert(base.map_values(f) =~= cases);
}

/// The arguments of a run select a case exactly where it is registered, its
/// name holds the filter where there is one, one of its tags is asked for
/// where any tag is asked for, and none of its tags is unwanted; an empty tag
/// counts for nothing.
pub proof fn law_what_is_selected<'a>(
    cases: Seq<&'a TestCase>,
    filter: Option<Seq<char>>,
    tag: Seq<Seq<char>>,
    not_tag: Seq<Seq<char>>,
    tc: &'a TestCase,
)
    ensures
        selected_cases(cases, filter, tag, not_tag).contains(tc) <==> {
            &&& cases.contains(tc)
            &&& filter matches Some(f) ==> text::contains(tc.name@, f)
            &&& (exists|k: int| 0 <= k < tag.len() && (#[trigger] tag[k]).len() > 0)
                ==> has_tag_among(*tc, tag)
            &&& !has_tag_among(*tc, not_tag)
        },
{
    text::lemma_filter_contains(cases, |x: &'a TestCase| chosen(*x, filter, tag, not_tag), tc);
    lemma_has_tag_among(*tc, tag);
    lemma_has_tag_among(*tc, not_tag);
    assert((exists|k: int| 0 <= k < tag.len() && (#[trigger] tag[k]).len() > 0) <==> !(forall|
        i: int,
    |
        0 <= i < tag.len() ==> (#[trigger] tag[i]).len() == 0));
}

/// Whether a tag of the case, not empty, is one of those.
pub open spec fn has_tag_among(tc: TestCase, tags: Seq<Seq<char>>) -> bool {
    exists|i: int, k: int|
        0 <= i < tc.tags@.len() && 0 <= k < tags.len() && (#[trigger] tc.tags@[i])@
            == #[trigger] tags[k] && tags[k].len() > 0
}

proof fn lemma_has_tag_among(tc: TestCase, tags: Seq<Seq<char>>)
    ensures
        carries(tc, tags) == has_tag_among(tc, tags),
{
    if carries(tc, tags) {
        let i = choose|i: int|
            0 <= i < tc.tags@.len() && (#[trigger] tc.tags@[i])@.len() > 0 && tags.contains(
                tc.tags@[i]@,
            );
        let k = tags.index_of(tc.tags@[i]@);
        assert(tc.tags@[i]@ == tags[k]);
    }
    if has_tag_among(tc, tags) {
        let (i, k) = choose|i: int, k: int|
            0 <= i < tc.tags@.len() && 0 <= k < tags.len() && (#[trigger] tc.tags@[i])@
                == #[trigger] tags[k] && tags[k].len() > 0;
        assert(tags.contains(tc.tags@[i]@));
    }
}

/// The two filters by themselves: a case is kept by its name exactly where it
/// holds the filter, and by its tags exactly where it has one that is wanted,
/// if any is, and none that is not.
pub proof fn law_what_a_filter_keeps<'a>(
    cases: Seq<&'a TestCase>,
    filter: Seq<char>,
    wanted: Seq<&str>,
    unwanted: Seq<&str>,
    tc: &'a TestCase,
)
    ensures
        filtered(cases, Some(filter)).contains(tc) <==> cases.contains(tc) && text::contains(
            tc.name@,
            filter,
        ),
        filtered(cases, None).contains(tc) <==> cases.contains(tc),
        tag_filtered(cases, wanted, unwanted).contains(tc) <==> {
            &&& cases.contains(tc)
            &&& wanted.len() > 0 ==> exists|i: int, k: int|
                0 <= i < tc.tags@.len() && 0 <= k < wanted.len() && (#[trigger] tc.tags@[i])@ == (
                #[trigger] wanted[k])@
            &&& forall|i: int, k: int|
                0 <= i < tc.tags@.len() && 0 <= k < unwanted.len() ==> (#[trigger] tc.tags@[i])@
                    != (#[trigger] unwanted[k])@
        },
{
    text::lemma_filter_contains(cases, |x: &'a TestCase| named_by(*x, Some(filter)), tc);
    text::lemma_filter_contains(cases, |x: &'a TestCase| named_by(*x, None), tc);
    text::lemma_filter_contains(cases, |x: &'a TestCase| selected(*x, wanted, unwanted), tc);
    lemma_tagged(*tc, wanted);
    lemma_tagged(*tc, unwanted);
}

proof fn lemma_tagged(tc: TestCase, tags: Seq<&str>)
    ensures
        tagged(tc, tags) <==> exists|i: int, k: int|
            0 <= i < tc.tags@.len() && 0 <= k < tags.len() && (#[trigger] tc.tags@[i])@ == (
            #[trigger] tags[k])@,
{
    if tagged(tc, tags) {
        let i = choose|i: int|
            0 <= i < tc.tags@.len() && text::names(tags).contains((#[trigger] tc.tags@[i])@);
        let k = text::names(tags).index_of(tc.tags@[i]@);
        assert(tc.tags@[i]@ == tags[k]@);
    }
    if exists|i: int, k: int|
        0 <= i < tc.tags@.len() && 0 <= k < tags.len() && (#[trigger] tc.tags@[i])@ == (
        #[trigger] tags[k])@ {
        let (i, k) = choose|i: int, k: int|
            0 <= i < tc.tags@.len() && 0 <= k < tags.len() && (#[trigger] tc.tags@[i])@ == (
            #[trigger] tags[k])@;
        assert(text::names(tags)[k] == tc.tags@[i]@);
    }
}

/// The order into which a seed brings cases drops none, adds none and repeats
/// none.
pub proof fn law_order_keeps_the_cases<'a>(
    r: Seq<&'a TestCase>,
    cases: Seq<&'a TestCase>,
    seed: u64,
    i: int,
    j: int,
)
    requires
        in_seed_order(r, cases, seed),
        0 <= i < j < cases.len(),
    ensures
        r.len() == cases.len(),
        exists|k: int, l: int|
            0 <= k < cases.len() && 0 <= l < cases.len() && k != l && r[i] == #[trigger] cases[k]
                && r[j] == #[trigger] cases[l],
{
    let order = order_of(cases.len() as int, seed);
    let k = order[i] as int;
    let l = order[j] as int;
    assert(k != l);
    assert(r[i] == cases[k] && r[j] == cases[l]);
}

/// Without capture cases run one at a time, whatever is asked for; otherwise as
/// many run at a time as asked for, and as many as the machine is good for
/// exactly where nothing is asked for.
pub proof fn law_limit_of_a_run(jobs: Option<usize>, n: usize, default_jobs: usize)
    ensures
        cap_of(true, jobs, default_jobs) == 1,
        cap_of(false, Some(n), default_jobs) == n,
        cap_of(false, None, default_jobs) == default_jobs,
{
}

/// The number of tests with an outcome is that of the tests among the first
/// ones that have it.
pub proof fn law_counts_are_of_the_outcome(verdicts: Seq<Verdict>, v: Verdict, n: int)
    requires
        0 <= n <= verdicts.len(),
    ensures
        count_of(verdicts, v, n) == verdicts.take(n).filter(|x: Verdict| x == v).len(),
    decreases n,
{
    let same = |x: Verdict| x == v;
    if n == 0 {
        reveal(Seq::filter);
        assert(verdicts.take(0).filter(same).len() == 0);
    } else {
        law_counts_are_of_the_outcome(verdicts, v, n - 1);
        assert(verdicts.take(n) =~= verdicts.take(n - 1).push(verdicts[n - 1]));
        text::lemma_filter_push(verdicts.take(n - 1), verdicts[n - 1], same);
    }
}

/// A run succeeds exactly where every test passed or was skipped and every
/// report was written. Where a test failed, what is said tells how many of how
/// many passed; where only a report could not be written, why.
pub proof fn law_when_a_run_succeeds(
    passed: nat,
    skipped: nat,
    failed: nat,
    finish: Result<(), Seq<char>>,
)
    ensures
        ({
            let total = passed + skipped + failed;
            let r = suite_result(passed, skipped, total, finish);
            &&& r is Ok <==> failed == 0 && finish is Ok
            &&& failed > 0 ==> (r matches Err(e) && text::contains(
                e,
                text::decimal(passed) + "/"@ + text::decimal(total),
            ))
            &&& failed == 0 ==> r == finish
        }),
{
    let total = passed + skipped + failed;
    let n = text::decimal(passed) + "/"@ + text::decimal(total);
    assert(n.subrange(0, n.len() as int) =~= n);
    assert(text::occurs_at(n, n, 0));
    text::lemma_contains_within("Test suite failed: "@, n, " passed"@, n);
    assert("Test suite failed: "@ + n + " passed"@ =~= "Test suite failed: "@ + text::decimal(passed)
        + "/"@ + text::decimal(total) + " passed"@);
}

/// A test program ends with the exit code of a success exactly where its run
/// succeeded, and a run that its probes stopped has an exit code of its own.
pub proof fn law_exit_codes(a: Result<(), RunError>, b: Result<(), RunError>)
    ensures
        exit_code_of(a) == 0 <==> a is Ok,
        a matches Err(e) ==> b matches Err(f) ==> (exit_code_of(a) == exit_code_of(b) <==> (
        e is Preflight <==> f is Preflight)),
        a matches Err(e) ==> (exit_code_of(a) == 1 <==> e is Other),
{
}

/// The report of a program has the name that is set, unless that is empty;
/// otherwise that of the program, from which nothing but the dash and the
/// sixteen hexadecimal digits at its end are taken, where there are such.
pub proof fn law_name_of_a_report(
    stem: Seq<char>,
    hash: Seq<char>,
    name: Seq<char>,
    other: Option<Seq<char>>,
)
    requires
        hash.len() == 16,
        forall|i: int| 0 <= i < 16 ==> hex_digit(#[trigger] hash[i]),
    ensures
        suite_name_of(Some(stem + seq!['-'] + hash), None) == stem,
        suite_name_of(Some(stem + seq!['-'] + hash), Some(seq![])) == stem,
        name.len() > 0 ==> suite_name_of(other, Some(name)) == name,
        suite_name_of(Some(stem), None) != stem ==> exists|h: Seq<char>|
            h.len() == 16 && stem == suite_name_of(Some(stem), None) + seq!['-'] + h && forall|
                i: int,
            |
                0 <= i < 16 ==> hex_digit(#[trigger] h[i]),
{
    let s = stem + seq!['-'] + hash;
    assert(s[s.len() - 17] == '-');
    assert forall|i: int| s.len() - 16 <= i < s.len() implies hex_digit(#[trigger] s[i]) by {
        assert(s[i] == hash[i - (s.len() - 16)]);
    }
    assert(ends_in_hash(s));
    assert(s.take(s.len() - 17) =~= stem);
    if suite_name_of(Some(stem), None) != stem {
        let h = stem.skip(stem.len() - 16);
        assert(stem =~= suite_name_of(Some(stem), None) + seq!['-'] + h);
        assert forall|i: int| 0 <= i < 16 implies hex_digit(#[trigger] h[i]) by {
            assert(h[i] == stem[stem.len() - 16 + i]);
        }
    }
}

/// A program that lies below a directory named `target` writes its report
/// below the last such directory, and any other below `target`; in either case
/// to `junit.xml` in a directory named `rigtest`.
pub proof fn law_place_of_a_report(before: Seq<Seq<char>>, after: Seq<Seq<char>>)
    requires
        !after.contains("target"@),
    ensures
        junit_path_of(before + seq!["target"@] + after) == before + seq![
            "target"@,
            "rigtest"@,
            "junit.xml"@,
        ],
        junit_path_of(after) == seq!["target"@, "rigtest"@, "junit.xml"@],
{
    lemma_target_end(before.push("target"@), after);
    let whole = before + seq!["target"@] + after;
    assert(before.push("target"@) + after =~= whole);
    assert(target_end(before.push("target"@)) == before.len() + 1);
    assert(whole.take(before.len() as int + 1) =~= before.push("target"@));
    assert(junit_path_of(whole) =~= before + seq!["target"@, "rigtest"@, "junit.xml"@]);
    let none: Seq<Seq<char>> = seq![];
    lemma_target_end(none, after);
    assert(none + after =~= after);
    assert(junit_path_of(after) =~= seq!["target"@, "rigtest"@, "junit.xml"@]);
}

proof fn lemma_target_end(before: Seq<Seq<char>>, after: Seq<Seq<char>>)
    requires
        !after.contains("target"@),
    ensures
        target_end(before + after) == target_end(before),
    decreases after.len(),
{
    if after.len() == 0 {
        assert(before + after =~= before);
    } else {
        assert(after.contains(after[after.len() - 1]));
        assert((before + after).drop_last() =~= before + after.drop_last());
        assert(!after.drop_last().contains("target"@)) by {
            if after.drop_last().contains("target"@) {
                let i = after.drop_last().index_of("target"@);
                assert(after[i] == "target"@);
            }
        }
        lemma_target_end(before, after.drop_last());
        assert((before + after).last() == after.last());
    }
}

/// No additional reporter but the one for JUnit can be asked for, and what is
/// said of another name quotes it.
pub proof fn law_known_reporters(name: Seq<char>)
    ensures
        reporter_error(None) is None,
        reporter_error(Some(name)) is None <==> name == "junit"@,
        reporter_error(Some(name)) matches Some(e) ==> text::contains(e, "'"@ + name + "'"@),
{
    let q = "'"@ + name + "'"@;
    assert(q.subrange(0, q.len() as int) =~= q);
    assert(text::occurs_at(q, q, 0));
    reveal_strlit("cargo-rigtest: unknown --reporter '");
    reveal_strlit("cargo-rigtest: unknown --reporter ");
    reveal_strlit("' (expected 'junit')");
    reveal_strlit(" (expected 'junit')");
    reveal_strlit("'");
    assert("cargo-rigtest: unknown --reporter '"@ =~= "cargo-rigtest: unknown --reporter "@ + "'"@);
    assert("' (expected 'junit')"@ =~= "'"@ + " (expected 'junit')"@);
    text::lemma_contains_within(
        "cargo-rigtest: unknown --reporter "@,
        q,
        " (expected 'junit')"@,
        q,
    );
    assert("cargo-rigtest: unknown --reporter '"@ + name + "' (expected 'junit')"@
        =~= "cargo-rigtest: unknown --reporter "@ + q + " (expected 'junit')"@);
}

/// A program is put together wrongly exactly where it registers something
/// twice that it may have once; what is said tells what, and how often.
pub proof fn law_single_registrations(r: Registrations, what: Seq<char>, found: nat)
    ensures
        registrations_error(r) is None <==> {
            &&& r.preflight <= 1
            &&& r.global_setup <= 1
            &&& r.global_teardown <= 1
            &&& r.default_timeout <= 1
            &&& r.http_client <= 1
            &&& r.ssh_client <= 1
        },
        found > 1 ==> (singleton_error(what, found) matches Some(e) && text::contains(e, what)
            && text::contains(e, text::decimal(found))),
        r.preflight > 1 ==> registrations_error(r) == singleton_error(
            "#[preflight] function"@,
            r.preflight as nat,
        ),
        r.preflight <= 1 && r.global_setup > 1 ==> registrations_error(r) == singleton_error(
            "#[global_setup] function"@,
            r.global_setup as nat,
        ),
        r.preflight <= 1 && r.global_setup <= 1 && r.global_teardown > 1 ==> registrations_error(r)
            == singleton_error("#[global_teardown] function"@, r.global_teardown as nat),
{
    let head = "cargo-rigtest: at most one "@;
    let mid = " may be defined, found "@;
    let n = text::decimal(found);
    let none: Seq<char> = seq![];
    assert(what.subrange(0, what.len() as int) =~= what);
    assert(text::occurs_at(what, what, 0));
    text::lemma_contains_within(head, what, mid + n, what);
    assert(head + what + (mid + n) =~= head + what + mid + n);
    assert(n.subrange(0, n.len() as int) =~= n);
    assert(text::occurs_at(n, n, 0));
    text::lemma_contains_within(head + what + mid, n, none, n);
    assert(head + what + mid + n + none =~= head + what + mid + n);
}

} // verus!
