//! The expansion of a `#[testcase]` function as data: one test case for each
//! combination of a case row and listed values.

use crate::cases;
use crate::cases::{CaseRow, ParamKind};
use crate::function;
use crate::syntax;
use crate::testcase;
use crate::testcase::TestcaseSpec;
use crate::text;
use vstd::arithmetic::div_mod::*;
use vstd::prelude::*;
use vstd::string::*;

verus! {

// ── combinations of listed values ───────────────────────────────────────────

/// The number of ways to choose one of `sizes[d]` values for each `d`.
pub open spec fn combinations(sizes: Seq<nat>) -> nat
    decreases sizes.len(),
{
    if sizes.len() == 0 {
        1
    } else {
        combinations(sizes.drop_last()) * sizes.last()
    }
}

/// The `j`-th choice of one of `sizes[d]` values for each `d`, where the last
/// choice varies fastest.
pub open spec fn choice(sizes: Seq<nat>, j: int) -> Seq<int>
    decreases sizes.len(),
{
    if sizes.len() == 0 {
        seq![]
    } else {
        choice(sizes.drop_last(), j / (sizes.last() as int)).push(j % (sizes.last() as int))
    }
}

/// The numbers in `v`.
pub open spec fn nats(v: Seq<usize>) -> Seq<nat> {
    v.map_values(|n: usize| n as nat)
}

/// The numbers in `v`.
pub open spec fn ints(v: Seq<usize>) -> Seq<int> {
    v.map_values(|n: usize| n as int)
}

/// Whether `tuples` are the first choices among `sizes[d]` values for each
/// `d`, in order.
pub open spec fn choices(tuples: Seq<Vec<usize>>, sizes: Seq<nat>) -> bool {
    forall|j: int| 0 <= j < tuples.len() ==> ints((#[trigger] tuples[j])@) == choice(sizes, j)
}

/// A choice picks one of the values for each `d`.
pub proof fn lemma_choice_in_range(sizes: Seq<nat>, j: int)
    requires
        0 <= j < combinations(sizes),
    ensures
        choice(sizes, j).len() == sizes.len(),
        forall|d: int| 0 <= d < sizes.len() ==> 0 <= #[trigger] choice(sizes, j)[d] < sizes[d],
    decreases sizes.len(),
{
    if sizes.len() > 0 {
        let n = sizes.last() as int;
        let c = combinations(sizes.drop_last()) as int;
        assert(n > 0) by (nonlinear_arith)
            requires
                0 <= j < c * n,
                n >= 0,
        ;
        assert(0 <= j / n < c) by (nonlinear_arith)
            requires
                0 <= j < c * n,
                n > 0,
        ;
        lemma_choice_in_range(sizes.drop_last(), j / n);
        let head = choice(sizes.drop_last(), j / n);
        assert forall|d: int| 0 <= d < sizes.len() implies 0 <= #[trigger] choice(sizes, j)[d]
            < sizes[d] by {
            if d < sizes.len() - 1 {
                assert(choice(sizes, j)[d] == head[d]);
                assert(sizes.drop_last()[d] == sizes[d]);
            }
        }
    }
}

/// Every choice of one of `sizes[d]` values for each `d`, the last choice
/// varying fastest.
pub fn value_index_tuples(sizes: &Vec<usize>) -> (tuples: Vec<Vec<usize>>)
    ensures
        tuples@.len() == combinations(nats(sizes@)),
        choices(tuples@, nats(sizes@)),
{
    let mut tuples: Vec<Vec<usize>> = Vec::new();
    let none: Vec<usize> = Vec::new();
    assert(ints(none@) =~= seq![]);
    tuples.push(none);
    let ghost all = nats(sizes@);
    let mut d: usize = 0;
    assert(all.take(0) =~= seq![]);
    while d < sizes.len()
        invariant
            d <= sizes@.len(),
            all == nats(sizes@),
            tuples@.len() == combinations(all.take(d as int)),
            choices(tuples@, all.take(d as int)),
        decreases sizes@.len() - d,
    {
        let ghost head = all.take(d as int);
        let ghost more = all.take(d + 1);
        let n: usize = sizes[d];
        proof {
            assert(more.drop_last() =~= head);
            assert(more.last() == n as nat);
        }
        let mut next: Vec<Vec<usize>> = Vec::new();
        let mut p: usize = 0;
        while p < tuples.len()
            invariant
                p <= tuples@.len(),
                choices(tuples@, head),
                more.len() > 0,
                more.drop_last() == head,
                more.last() == n as nat,
                next@.len() == p * n,
                choices(next@, more),
            decreases tuples@.len() - p,
        {
            let mut i: usize = 0;
            while i < n
                invariant
                    i <= n,
                    p < tuples@.len(),
                    choices(tuples@, head),
                    more.len() > 0,
                    more.drop_last() == head,
                    more.last() == n as nat,
                    next@.len() == p * n + i,
                    choices(next@, more),
                decreases n - i,
            {
                let mut combo: Vec<usize> = tuples[p].clone();
                let ghost was = combo@;
                assert(was =~= tuples@[p as int]@);
                combo.push(i);
                proof {
                    let j = next@.len() as int;
                    lemma_fundamental_div_mod_converse(j, n as int, p as int, i as int);
                    assert(ints(tuples@[p as int]@) == choice(head, p as int));
                    assert(ints(combo@) =~= ints(was).push(i as int));
                    assert(ints(combo@) == choice(more, j));
                }
                next.push(combo);
                i += 1;
            }
            assert((p + 1) * n == p * n + n) by (nonlinear_arith);
            p += 1;
        }
        tuples = next;
        d += 1;
    }
    assert(all.take(d as int) =~= all);
    tuples
}

// ── the generated cases ─────────────────────────────────────────────────────

/// What is passed for a parameter.
#[derive(Debug)]
pub enum ArgSource {
    /// The test's context.
    Ctx,
    /// A value of the case row.
    Case(String),
    /// A listed value.
    Values(String),
    /// The fixture of that name.
    Fixture(String),
}

pub enum ArgSourceV {
    Ctx,
    Case(Seq<char>),
    Values(Seq<char>),
    Fixture(Seq<char>),
}

impl DeepView for ArgSource {
    type V = ArgSourceV;

    open spec fn deep_view(&self) -> ArgSourceV {
        match self {
            ArgSource::Ctx => ArgSourceV::Ctx,
            ArgSource::Case(e) => ArgSourceV::Case(e@),
            ArgSource::Values(e) => ArgSourceV::Values(e@),
            ArgSource::Fixture(name) => ArgSourceV::Fixture(name@),
        }
    }
}

/// One test case: its name, the name of its registration, and what is passed
/// for each parameter.
#[derive(Debug)]
pub struct GeneratedCase {
    pub name: String,
    pub static_ident: String,
    pub args: Vec<ArgSource>,
}

pub struct GeneratedCaseV {
    pub name: Seq<char>,
    pub static_ident: Seq<char>,
    pub args: Seq<ArgSourceV>,
}

impl DeepView for GeneratedCase {
    type V = GeneratedCaseV;

    open spec fn deep_view(&self) -> GeneratedCaseV {
        GeneratedCaseV {
            name: self.name@,
            static_ident: self.static_ident@,
            args: self.args.deep_view(),
        }
    }
}

/// The expansion of a test function: what its attribute says, its fixtures in
/// the order of its parameters, and its test cases.
#[derive(Debug)]
pub struct TestcasePlan {
    pub spec: TestcaseSpec,
    pub fixtures: Vec<String>,
    pub cases: Vec<GeneratedCase>,
}

/// The names of the fixtures among the parameters.
pub open spec fn fixtures_of(kinds: Seq<cases::ParamKindV>) -> Seq<Seq<char>>
    decreases kinds.len(),
{
    if kinds.len() == 0 {
        seq![]
    } else {
        match kinds.last() {
            cases::ParamKindV::Fixture(name) => fixtures_of(kinds.drop_last()).push(name),
            _ => fixtures_of(kinds.drop_last()),
        }
    }
}

/// The names of the fixtures among the parameters.
pub fn fixture_idents(kinds: &Vec<ParamKind>) -> (r: Vec<String>)
    ensures
        r.deep_view() == fixtures_of(kinds.deep_view()),
{
    let ghost all = kinds.deep_view();
    let mut out: Vec<String> = Vec::new();
    let mut i: usize = 0;
    assert(out.deep_view() =~= seq![]);
    while i < kinds.len()
        invariant
            i <= kinds@.len(),
            all == kinds.deep_view(),
            out.deep_view() == fixtures_of(all.take(i as int)),
        decreases kinds@.len() - i,
    {
        proof {
            assert(all.take(i + 1).drop_last() =~= all.take(i as int));
            assert(all.take(i + 1).last() == kinds@[i as int].deep_view());
        }
        let ghost was = out.deep_view();
        if let ParamKind::Fixture(name) = &kinds[i] {
            out.push(name.clone());
            assert(out.deep_view() =~= was.push(name@));
        }
        i += 1;
    }
    assert(all.take(i as int) =~= all);
    out
}

/// The number of listed values for each parameter that has such, among the
/// first `n`.
pub open spec fn sizes_before(kinds: Seq<cases::ParamKindV>, n: int) -> Seq<nat>
    decreases n,
{
    if n <= 0 {
        seq![]
    } else {
        match kinds[n - 1] {
            cases::ParamKindV::Values(values) => sizes_before(kinds, n - 1).push(values.len()),
            _ => sizes_before(kinds, n - 1),
        }
    }
}

/// The number of listed values for each parameter that has such.
pub open spec fn sizes_of(kinds: Seq<cases::ParamKindV>) -> Seq<nat> {
    sizes_before(kinds, kinds.len() as int)
}

proof fn lemma_sizes(kinds: Seq<cases::ParamKindV>, p: int, n: int)
    requires
        0 <= p <= n <= kinds.len(),
    ensures
        sizes_before(kinds, p).len() <= sizes_before(kinds, n).len(),
        forall|d: int|
            0 <= d < sizes_before(kinds, p).len() ==> #[trigger] sizes_before(kinds, n)[d]
                == sizes_before(kinds, p)[d],
    decreases n,
{
    if p < n {
        lemma_sizes(kinds, p, n - 1);
    }
}

proof fn lemma_cases_before(kinds: Seq<cases::ParamKindV>, p: int, n: int)
    requires
        0 <= p <= n <= kinds.len(),
    ensures
        0 <= cases::cases_before(kinds, p) <= cases::cases_before(kinds, n),
    decreases n,
{
    if p < n {
        lemma_cases_before(kinds, p, n - 1);
    } else if p > 0 {
        lemma_cases_before(kinds, p - 1, p - 1);
    }
}

/// What is passed for the parameter at position `p`, given the row's values
/// and the choice among the listed ones.
pub open spec fn arg_at(
    kinds: Seq<cases::ParamKindV>,
    row: Seq<Seq<char>>,
    tuple: Seq<int>,
    p: int,
) -> ArgSourceV {
    match kinds[p] {
        cases::ParamKindV::Ctx => ArgSourceV::Ctx,
        cases::ParamKindV::Fixture(name) => ArgSourceV::Fixture(name),
        cases::ParamKindV::Case => ArgSourceV::Case(row[cases::cases_before(kinds, p)]),
        cases::ParamKindV::Values(values) => ArgSourceV::Values(
            values[tuple[sizes_before(kinds, p).len() as int]],
        ),
    }
}

/// What is passed for each parameter.
pub open spec fn args_at(
    kinds: Seq<cases::ParamKindV>,
    row: Seq<Seq<char>>,
    tuple: Seq<int>,
) -> Seq<ArgSourceV> {
    Seq::new(kinds.len(), |p: int| arg_at(kinds, row, tuple, p))
}

/// What the chosen values among those of the first `n` parameters add to a
/// case's label: their letters and digits, where there are any.
pub open spec fn value_labels(kinds: Seq<cases::ParamKindV>, tuple: Seq<int>, n: int) -> Seq<
    Seq<char>,
>
    decreases n,
{
    if n <= 0 {
        seq![]
    } else {
        let before = value_labels(kinds, tuple, n - 1);
        match kinds[n - 1] {
            cases::ParamKindV::Values(values) => {
                let part = text::only_alphanumeric(
                    values[tuple[sizes_before(kinds, n - 1).len() as int]],
                );
                if part.len() > 0 {
                    before.push(part)
                } else {
                    before
                }
            },
            _ => before,
        }
    }
}

/// The parts of a case's label: the row's label, then those of the chosen
/// values.
pub open spec fn labels_at(
    kinds: Seq<cases::ParamKindV>,
    label: Option<Seq<char>>,
    tuple: Seq<int>,
) -> Seq<Seq<char>> {
    match label {
        Some(l) => seq![l] + value_labels(kinds, tuple, kinds.len() as int),
        None => value_labels(kinds, tuple, kinds.len() as int),
    }
}

/// The end of a case's name: its number, counted from one, and its label.
pub open spec fn suffix_of(number: nat, labels: Seq<Seq<char>>) -> Seq<char> {
    if labels.len() == 0 {
        "case_"@ + text::decimal(number)
    } else {
        "case_"@ + text::decimal(number) + "_"@ + text::join(labels, "_"@)
    }
}

/// `s` in upper case, with dashes as underscores.
pub open spec fn screaming(s: Seq<char>) -> Seq<char> {
    text::with_char(syntax::uppercased(s), '-', '_')
}

/// The name of the registration of a case of the function `name`.
pub open spec fn registration_name(name: Seq<char>, suffix: Option<Seq<char>>) -> Seq<char> {
    match suffix {
        Some(s) => "__RIGTEST_TESTCASE_"@ + screaming(name) + "_"@ + screaming(s),
        None => "__RIGTEST_TESTCASE_"@ + screaming(name),
    }
}

/// The name of the registration of a case of the function `name`.
pub fn registration_ident(name: &str, suffix: Option<&str>) -> (r: String)
    ensures
        r@ == registration_name(name@, suffix.deep_view()),
{
    let mut r = "__RIGTEST_TESTCASE_".to_owned();
    r.append(&text::replace_char(&syntax::uppercase(name), '-', '_'));
    if let Some(s) = suffix {
        r.append("_");
        r.append(&text::replace_char(&syntax::uppercase(s), '-', '_'));
    }
    r
}

/// Whether the function has case rows or parameters with listed values.
pub open spec fn has_dimensions(
    kinds: Seq<cases::ParamKindV>,
    rows: Seq<cases::CaseRowV>,
) -> bool {
    rows.len() > 0 || sizes_of(kinds).len() > 0
}

/// The number of entries of the outer dimension: the case rows, or one in
/// their place.
pub open spec fn row_count(rows: Seq<cases::CaseRowV>) -> nat {
    if rows.len() == 0 {
        1
    } else {
        rows.len()
    }
}

/// The case of row `i` and choice `j`, for the function `name`.
pub open spec fn case_at(
    kinds: Seq<cases::ParamKindV>,
    rows: Seq<cases::CaseRowV>,
    name: Seq<char>,
    i: int,
    j: int,
) -> GeneratedCaseV {
    let tuple = choice(sizes_of(kinds), j);
    let label = if rows.len() == 0 {
        None
    } else {
        rows[i].label
    };
    let row: Seq<Seq<char>> = if rows.len() == 0 {
        seq![]
    } else {
        rows[i].values
    };
    let number = (i * combinations(sizes_of(kinds)) + j + 1) as nat;
    let suffix = suffix_of(number, labels_at(kinds, label, tuple));
    GeneratedCaseV {
        name: name + "::"@ + suffix,
        static_ident: registration_name(name, Some(suffix)),
        args: args_at(kinds, row, tuple),
    }
}

/// The one case of a function without case rows and listed values.
pub open spec fn only_case(kinds: Seq<cases::ParamKindV>, name: Seq<char>) -> GeneratedCaseV {
    GeneratedCaseV {
        name,
        static_ident: registration_name(name, None),
        args: args_at(kinds, seq![], seq![]),
    }
}

/// Whether `generated` are the cases of the function `name`: a single one
/// under the function's own name where it has neither rows nor listed values,
/// else one for each row and each choice of listed values, the rows outermost
/// and the last parameter's values varying fastest.
pub open spec fn planned(
    generated: Seq<GeneratedCaseV>,
    kinds: Seq<cases::ParamKindV>,
    rows: Seq<cases::CaseRowV>,
    name: Seq<char>,
) -> bool {
    if has_dimensions(kinds, rows) {
        let per_row = combinations(sizes_of(kinds)) as int;
        &&& generated.len() == row_count(rows) * per_row
        &&& forall|i: int, j: int|
            0 <= i < row_count(rows) && 0 <= j < per_row ==> #[trigger] generated[i * per_row + j]
                == case_at(kinds, rows, name, i, j)
    } else {
        generated == seq![only_case(kinds, name)]
    }
}

proof fn lemma_no_misfit(rows: Seq<cases::CaseRowV>, want: int, i: int)
    requires
        cases::first_misfit(rows, want) is None,
        0 <= i < rows.len(),
    ensures
        rows[i].values.len() == want,
    decreases rows.len(),
{
    if i > 0 {
        lemma_no_misfit(rows.skip(1), want, i - 1);
        assert(rows.skip(1)[i - 1] == rows[i]);
    }
}

fn sizes(kinds: &Vec<ParamKind>) -> (r: Vec<usize>)
    ensures
        nats(r@) == sizes_of(kinds.deep_view()),
{
    let ghost all = kinds.deep_view();
    let mut out: Vec<usize> = Vec::new();
    let mut i: usize = 0;
    while i < kinds.len()
        invariant
            i <= kinds@.len(),
            all == kinds.deep_view(),
            nats(out@) == sizes_before(all, i as int),
        decreases kinds@.len() - i,
    {
        assert(all[i as int] == kinds@[i as int].deep_view());
        let ghost was = out@;
        if let ParamKind::Values(values) = &kinds[i] {
            out.push(values.len());
            assert(nats(out@) =~= nats(was).push(values.deep_view().len()));
        }
        i += 1;
    }
    out
}

/// Whether `tuple` chooses a value for each parameter with listed values.
pub open spec fn chooses(kinds: Seq<cases::ParamKindV>, tuple: Seq<int>) -> bool {
    &&& tuple.len() == sizes_of(kinds).len()
    &&& forall|d: int| 0 <= d < tuple.len() ==> 0 <= #[trigger] tuple[d] < sizes_of(kinds)[d]
}

fn call_args(kinds: &Vec<ParamKind>, row: &[String], tuple: &Vec<usize>) -> (r: Vec<ArgSource>)
    requires
        row@.len() == cases::cases_before(kinds.deep_view(), kinds@.len() as int),
        chooses(kinds.deep_view(), ints(tuple@)),
    ensures
        r.deep_view() == args_at(kinds.deep_view(), row.deep_view(), ints(tuple@)),
{
    let ghost ks = kinds.deep_view();
    let ghost rs = row.deep_view();
    let ghost ts = ints(tuple@);
    let mut out: Vec<ArgSource> = Vec::new();
    let mut c: usize = 0;
    let mut d: usize = 0;
    let mut p: usize = 0;
    while p < kinds.len()
        invariant
            p <= kinds@.len(),
            ks == kinds.deep_view(),
            rs == row.deep_view(),
            ts == ints(tuple@),
            row@.len() == cases::cases_before(ks, ks.len() as int),
            chooses(ks, ts),
            c == cases::cases_before(ks, p as int),
            d == sizes_before(ks, p as int).len(),
            d <= p,
            out@.len() == p,
            forall|k: int| 0 <= k < p ==> (#[trigger] out@[k]).deep_view() == arg_at(ks, rs, ts, k),
        decreases kinds@.len() - p,
    {
        proof {
            assert(ks[p as int] == kinds@[p as int].deep_view());
            lemma_cases_before(ks, p + 1, ks.len() as int);
            lemma_sizes(ks, p + 1, ks.len() as int);
        }
        match &kinds[p] {
            ParamKind::Ctx => out.push(ArgSource::Ctx),
            ParamKind::Fixture(name) => out.push(ArgSource::Fixture(name.clone())),
            ParamKind::Values(values) => {
                proof {
                    assert(sizes_before(ks, p + 1)[d as int] == values.deep_view().len());
                    assert(ts[d as int] == tuple@[d as int]);
                }
                out.push(ArgSource::Values(values[tuple[d]].clone()));
                d += 1;
            },
            ParamKind::Case => {
                out.push(ArgSource::Case(row[c].clone()));
                c += 1;
            },
        }
        p += 1;
    }
    assert(out.deep_view() =~= args_at(ks, rs, ts));
    out
}

/// The letters and digits of a value, as they go into a case's label.
pub fn sanitize_value(value: &str) -> (r: String)
    ensures
        r@ == text::only_alphanumeric(value@),
{
    text::keep_alphanumeric(value)
}

fn label_parts(kinds: &Vec<ParamKind>, label: Option<&String>, tuple: &Vec<usize>) -> (r: Vec<String>)
    requires
        chooses(kinds.deep_view(), ints(tuple@)),
    ensures
        r.deep_view() == labels_at(kinds.deep_view(), label.deep_view(), ints(tuple@)),
{
    let ghost ks = kinds.deep_view();
    let ghost ts = ints(tuple@);
    let mut out: Vec<String> = Vec::new();
    if let Some(l) = label {
        out.push(l.clone());
    }
    let ghost first = out.deep_view();
    let mut d: usize = 0;
    let mut p: usize = 0;
    assert(out.deep_view() =~= first + value_labels(ks, ts, 0));
    while p < kinds.len()
        invariant
            p <= kinds@.len(),
            ks == kinds.deep_view(),
            ts == ints(tuple@),
            chooses(ks, ts),
            d == sizes_before(ks, p as int).len(),
            d <= p,
            out.deep_view() == first + value_labels(ks, ts, p as int),
        decreases kinds@.len() - p,
    {
        proof {
            assert(ks[p as int] == kinds@[p as int].deep_view());
            lemma_sizes(ks, p + 1, ks.len() as int);
        }
        let ghost was = out.deep_view();
        if let ParamKind::Values(values) = &kinds[p] {
            proof {
                assert(sizes_before(ks, p + 1)[d as int] == values.deep_view().len());
                assert(ts[d as int] == tuple@[d as int]);
            }
            let part = sanitize_value(&values[tuple[d]]);
            if part.as_str().unicode_len() > 0 {
                out.push(part);
                assert(out.deep_view() =~= was.push(part@));
            }
            d += 1;
        }
        p += 1;
        assert(out.deep_view() =~= first + value_labels(ks, ts, p as int));
    }
    assert(out.deep_view() =~= labels_at(ks, label.deep_view(), ts));
    out
}

fn case_suffix(number: u128, labels: &Vec<String>) -> (r: String)
    ensures
        r@ == suffix_of(number as nat, labels.deep_view()),
{
    let mut r = "case_".to_owned();
    r.append(&text::number(number));
    if labels.len() > 0 {
        r.append("_");
        r.append(&text::joined(labels, "_"));
    }
    r
}

/// Plans the expansion of the function `name`: its fixtures, and one test case
/// for each combination of a case row and listed values.
pub fn plan(
    spec: TestcaseSpec,
    kinds: &Vec<ParamKind>,
    rows: &Vec<CaseRow>,
    name: &str,
) -> (r: TestcasePlan)
    requires
        cases::shape_error(rows.deep_view(), kinds.deep_view()) is None,
    ensures
        r.spec == spec,
        r.fixtures.deep_view() == fixtures_of(kinds.deep_view()),
        planned(r.cases.deep_view(), kinds.deep_view(), rows.deep_view(), name@),
{
    let ghost ks = kinds.deep_view();
    let ghost rs = rows.deep_view();
    let fixtures = fixture_idents(kinds);
    let sizes = sizes(kinds);
    let mut cases: Vec<GeneratedCase> = Vec::new();

    if rows.len() == 0 && sizes.len() == 0 {
        let none: Vec<String> = Vec::new();
        let no_values: &[String] = none.as_slice();
        let no_choice: Vec<usize> = Vec::new();
        proof {
            lemma_cases_before(ks, 0, ks.len() as int);
            assert(no_values.deep_view() =~= seq![]);
            assert(ints(no_choice@) =~= seq![]);
        }
        let only = GeneratedCase {
            name: name.to_owned(),
            static_ident: registration_ident(name, None),
            args: call_args(kinds, no_values, &no_choice),
        };
        cases.push(only);
        assert(cases.deep_view() =~= seq![only_case(ks, name@)]);
        return TestcasePlan { spec, fixtures, cases };
    }
    let tuples = value_index_tuples(&sizes);
    let ghost per_row = combinations(sizes_of(ks)) as int;
    let count: usize = if rows.len() == 0 { 1 } else { rows.len() };
    let no_values: Vec<String> = Vec::new();
    let mut i: usize = 0;
    while i < count
        invariant
            i <= count,
            ks == kinds.deep_view(),
            rs == rows.deep_view(),
            cases::shape_error(rs, ks) is None,
            count == row_count(rs),
            no_values@.len() == 0,
            tuples@.len() == per_row,
            per_row == combinations(sizes_of(ks)),
            choices(tuples@, sizes_of(ks)),
            cases@.len() == i * per_row,
            forall|k: int|
                0 <= k < cases@.len() ==> (#[trigger] cases@[k]).deep_view() == case_at(
                    ks,
                    rs,
                    name@,
                    k / per_row,
                    k % per_row,
                ),
        decreases count - i,
    {
        let mut j: usize = 0;
        while j < tuples.len()
            invariant
                j <= tuples@.len(),
                i < count,
                ks == kinds.deep_view(),
                rs == rows.deep_view(),
                cases::shape_error(rs, ks) is None,
                count == row_count(rs),
                no_values@.len() == 0,
                tuples@.len() == per_row,
                per_row == combinations(sizes_of(ks)),
                choices(tuples@, sizes_of(ks)),
                cases@.len() == i * per_row + j,
                forall|k: int|
                    0 <= k < cases@.len() ==> (#[trigger] cases@[k]).deep_view() == case_at(
                        ks,
                        rs,
                        name@,
                        k / per_row,
                        k % per_row,
                    ),
            decreases tuples@.len() - j,
        {
            let (label, row) = if rows.len() == 0 {
                (None, no_values.as_slice())
            } else {
                (rows[i].label.as_ref(), rows[i].values.as_slice())
            };
            proof {
                let k = cases@.len() as int;
                lemma_fundamental_div_mod_converse(k, per_row, i as int, j as int);
                lemma_choice_in_range(sizes_of(ks), j as int);
                assert(ints(tuples@[j as int]@) == choice(sizes_of(ks), j as int));
                if rs.len() == 0 {
                    assert(row.deep_view() =~= seq![]);
                    lemma_cases_before(ks, 0, ks.len() as int);
                } else {
                    assert(rs[i as int] == rows@[i as int].deep_view());
                    lemma_no_misfit(rs, cases::cases_before(ks, ks.len() as int), i as int);
                    assert(row.deep_view() =~= rs[i as int].values);
                }
            }
            let labels = label_parts(kinds, label, &tuples[j]);
            let suffix = case_suffix(cases.len() as u128 + 1, &labels);
            let mut full = name.to_owned();
            full.append("::");
            full.append(&suffix);
            let case = GeneratedCase {
                name: full,
                static_ident: registration_ident(name, Some(&suffix)),
                args: call_args(kinds, row, &tuples[j]),
            };
            assert(case.deep_view() == case_at(ks, rs, name@, i as int, j as int));
            cases.push(case);
            j += 1;
        }
        assert((i + 1) * per_row == i * per_row + per_row) by (nonlinear_arith);
        i += 1;
    }
    proof {
        let generated = cases.deep_view();
        assert(has_dimensions(ks, rs)) by {
            assert(sizes@.len() == sizes_of(ks).len());
        }
        assert forall|a: int, b: int| 0 <= a < row_count(rs) && 0 <= b < per_row implies
            #[trigger] generated[a * per_row + b] == case_at(ks, rs, name@, a, b) by {
            let k = a * per_row + b;
            assert(0 <= k < cases@.len()) by (nonlinear_arith)
                requires
                    0 <= a < count,
                    0 <= b < per_row,
                    cases@.len() == count * per_row,
                    k == a * per_row + b,
            ;
            lemma_fundamental_div_mod_converse(k, per_row, a, b);
            assert(generated[k] == cases@[k].deep_view());
        }
    }
    TestcasePlan { spec, fixtures, cases }
}

// ── laws ────────────────────────────────────────────────────────────────────

proof fn lemma_suffix_number(m: nat, a: Seq<Seq<char>>, n: nat, b: Seq<Seq<char>>)
    requires
        suffix_of(m, a) == suffix_of(n, b),
    ensures
        m == n,
{
    reveal_strlit("case_");
    reveal_strlit("_");
    let ta = if a.len() == 0 {
        Seq::<char>::empty()
    } else {
        "_"@ + text::join(a, "_"@)
    };
    let tb = if b.len() == 0 {
        Seq::<char>::empty()
    } else {
        "_"@ + text::join(b, "_"@)
    };
    let x = text::decimal(m) + ta;
    let y = text::decimal(n) + tb;
    assert(suffix_of(m, a) =~= "case_"@ + x);
    assert(suffix_of(n, b) =~= "case_"@ + y);
    assert(x =~= ("case_"@ + x).skip(5));
    assert(y =~= ("case_"@ + y).skip(5));
    text::lemma_decimal_prefix(m, n, ta, tb);
}

/// No two cases of one function have the same name.
pub proof fn law_case_names_distinct(
    generated: Seq<GeneratedCaseV>,
    kinds: Seq<cases::ParamKindV>,
    rows: Seq<cases::CaseRowV>,
    name: Seq<char>,
    a: int,
    b: int,
)
    requires
        planned(generated, kinds, rows, name),
        0 <= a < generated.len(),
        0 <= b < generated.len(),
        generated[a].name == generated[b].name,
    ensures
        a == b,
{
    if has_dimensions(kinds, rows) {
        let t = combinations(sizes_of(kinds)) as int;
        let r = row_count(rows) as int;
        assert(t > 0) by (nonlinear_arith)
            requires
                0 <= a < r * t,
                t >= 0,
        ;
        assert(a / t < r && 0 <= a / t && 0 <= a % t < t && a == (a / t) * t + a % t)
            by (nonlinear_arith)
            requires
                0 <= a < r * t,
                t > 0,
        ;
        assert(b / t < r && 0 <= b / t && 0 <= b % t < t && b == (b / t) * t + b % t)
            by (nonlinear_arith)
            requires
                0 <= b < r * t,
                t > 0,
        ;
        let x = case_at(kinds, rows, name, a / t, a % t);
        let y = case_at(kinds, rows, name, b / t, b % t);
        assert(generated[(a / t) * t + a % t] == x);
        assert(generated[(b / t) * t + b % t] == y);
        let la = labels_at(
            kinds,
            if rows.len() == 0 {
                None
            } else {
                rows[a / t].label
            },
            choice(sizes_of(kinds), a % t),
        );
        let lb = labels_at(
            kinds,
            if rows.len() == 0 {
                None
            } else {
                rows[b / t].label
            },
            choice(sizes_of(kinds), b % t),
        );
        let sa = suffix_of((a + 1) as nat, la);
        let sb = suffix_of((b + 1) as nat, lb);
        let head = name + "::"@;
        assert(x.name == head + sa);
        assert(y.name == head + sb);
        assert(sa =~= (head + sa).skip(head.len() as int));
        assert(sb =~= (head + sb).skip(head.len() as int));
        lemma_suffix_number((a + 1) as nat, la, (b + 1) as nat, lb);
    }
}

/// What each of the parameters stands for, where nothing is wrong with them.
pub open spec fn kinds_in(params: Seq<function::ParamV>) -> Seq<cases::ParamKindV> {
    match cases::kinds_of(params) {
        Ok((kinds, kept)) => kinds,
        Err(d) => seq![],
    }
}

proof fn lemma_kinds_of(params: Seq<function::ParamV>)
    requires
        cases::kinds_of(params) is Ok,
    ensures
        kinds_in(params).len() == params.len(),
        forall|p: int|
            0 <= p < params.len() && #[trigger] kinds_in(params)[p] is Values
                ==> kinds_in(params)[p]->Values_0.len() > 0,
        forall|p: int, q: int|
            0 <= p < q < params.len() && #[trigger] kinds_in(params)[p] is Ctx
                ==> !(#[trigger] kinds_in(params)[q] is Ctx),
    decreases params.len(),
{
    if params.len() > 0 {
        lemma_kinds_of(params.drop_last());
        let before = kinds_in(params.drop_last());
        let now = kinds_in(params);
        assert forall|p: int| 0 <= p < before.len() implies before[p] == #[trigger] now[p] by {}
        match params.last() {
            function::ParamV::Typed { attrs, ident, ty, is_context } => {
                lemma_markers(attrs, (params.len() - 1) as usize);
            },
            _ => {},
        }
        assert forall|p: int, q: int|
            0 <= p < q < params.len() && #[trigger] now[p] is Ctx implies !(
        #[trigger] now[q] is Ctx) by {
            if q == params.len() - 1 && now[q] is Ctx {
                assert(before[p] == cases::ParamKindV::Ctx);
                assert(before.contains(cases::ParamKindV::Ctx));
            }
        }
    }
}

proof fn lemma_markers(attrs: Seq<function::AttrV>, param: usize)
    ensures
        cases::markers_of(attrs, param) is Ok && cases::markers_of(attrs, param)->Ok_0.values is Some
            ==> cases::markers_of(attrs, param)->Ok_0.values->0.len() > 0,
    decreases attrs.len(),
{
    if attrs.len() > 0 {
        lemma_markers(attrs.drop_last(), param);
    }
}

/// A test function has at most one context parameter.
pub proof fn law_one_context(params: Seq<function::ParamV>, p: int, q: int)
    requires
        cases::kinds_of(params) is Ok,
        0 <= p < q < params.len(),
    ensures
        !(kinds_in(params)[p] is Ctx && kinds_in(params)[q] is Ctx),
{
    lemma_kinds_of(params);
}

proof fn lemma_combinations_positive(kinds: Seq<cases::ParamKindV>, n: int)
    requires
        0 <= n <= kinds.len(),
        forall|p: int|
            0 <= p < kinds.len() && #[trigger] kinds[p] is Values ==> kinds[p]->Values_0.len() > 0,
    ensures
        combinations(sizes_before(kinds, n)) > 0,
    decreases n,
{
    if n > 0 {
        lemma_combinations_positive(kinds, n - 1);
        if kinds[n - 1] is Values {
            let before = sizes_before(kinds, n - 1);
            let now = before.push(kinds[n - 1]->Values_0.len());
            assert(now.drop_last() =~= before);
            assert(combinations(before) * now.last() > 0) by (nonlinear_arith)
                requires
                    combinations(before) > 0,
                    now.last() > 0,
            ;
        }
    }
}

/// A test function whose parameters are well formed gives rise to at least one
/// test case, and to at least one for each case row.
pub proof fn law_every_row_has_a_case(
    generated: Seq<GeneratedCaseV>,
    params: Seq<function::ParamV>,
    rows: Seq<cases::CaseRowV>,
    name: Seq<char>,
)
    requires
        cases::kinds_of(params) is Ok,
        planned(generated, kinds_in(params), rows, name),
    ensures
        generated.len() >= 1,
        generated.len() >= rows.len(),
{
    lemma_kinds_of(params);
    let kinds = kinds_in(params);
    lemma_combinations_positive(kinds, kinds.len() as int);
    if has_dimensions(kinds, rows) {
        let t = combinations(sizes_of(kinds)) as int;
        let r = row_count(rows) as int;
        assert(r * t >= r) by (nonlinear_arith)
            requires
                t > 0,
                r > 0,
        ;
    }
}

/// The number of a choice, counted as its values are: the last one fastest.
pub open spec fn place_of(sizes: Seq<nat>, tuple: Seq<int>) -> int
    decreases sizes.len(),
{
    if sizes.len() == 0 {
        0
    } else {
        place_of(sizes.drop_last(), tuple.drop_last()) * sizes.last() + tuple.last()
    }
}

/// Whether a tuple picks one of `sizes[d]` values for each `d`.
pub open spec fn picks(sizes: Seq<nat>, tuple: Seq<int>) -> bool {
    &&& tuple.len() == sizes.len()
    &&& forall|d: int| 0 <= d < sizes.len() ==> 0 <= #[trigger] tuple[d] < sizes[d]
}

/// Among as many choices as there are combinations, every combination of
/// values stands exactly once, in the order in which the last value varies
/// fastest.
pub proof fn law_every_combination_once(sizes: Seq<nat>, j: int, tuple: Seq<int>)
    ensures
        0 <= j < combinations(sizes) ==> picks(sizes, choice(sizes, j)) && place_of(
            sizes,
            choice(sizes, j),
        ) == j,
        picks(sizes, tuple) ==> 0 <= place_of(sizes, tuple) < combinations(sizes) && choice(
            sizes,
            place_of(sizes, tuple),
        ) == tuple,
    decreases sizes.len(),
{
    if sizes.len() == 0 {
        assert(choice(sizes, j) =~= seq![]);
        assert(tuple.len() == 0 ==> tuple =~= seq![]);
    } else {
        let head = sizes.drop_last();
        let n = sizes.last() as int;
        let c = combinations(head) as int;
        if 0 <= j < combinations(sizes) {
            assert(n > 0) by (nonlinear_arith)
                requires
                    0 <= j < c * n,
                    c >= 0,
                    n >= 0,
            ;
            assert(0 <= j / n < c && 0 <= j % n < n && j == (j / n) * n + j % n) by (nonlinear_arith)
                requires
                    0 <= j < c * n,
                    n > 0,
            ;
            law_every_combination_once(head, j / n, tuple.drop_last());
            let t = choice(sizes, j);
            assert(t.drop_last() =~= choice(head, j / n));
            assert(t.last() == j % n);
            assert forall|d: int| 0 <= d < sizes.len() implies 0 <= #[trigger] t[d] < sizes[d] by {
                if d < head.len() {
                    assert(t[d] == choice(head, j / n)[d]);
                    assert(head[d] == sizes[d]);
                }
            }
        }
        if picks(sizes, tuple) {
            let rest = tuple.drop_last();
            assert forall|d: int| 0 <= d < head.len() implies 0 <= #[trigger] rest[d] < head[d] by {
                assert(rest[d] == tuple[d]);
                assert(head[d] == sizes[d]);
            }
            law_every_combination_once(head, 0, rest);
            let k = place_of(head, rest);
            let x = tuple.last();
            assert(0 <= tuple[sizes.len() - 1] < sizes[sizes.len() - 1]);
            assert(0 <= k * n + x < c * n && (k * n + x) / n == k && (k * n + x) % n == x)
                by (nonlinear_arith)
                requires
                    0 <= k < c,
                    0 <= x < n,
            ;
            assert(choice(sizes, k * n + x) =~= tuple);
        }
    }
}

/// The number of parameters among the first `p` that are of a kind.
pub open spec fn before(kinds: Seq<cases::ParamKindV>, p: int, is: spec_fn(cases::ParamKindV) -> bool) -> int {
    kinds.take(p).filter(is).len() as int
}

proof fn lemma_counts(kinds: Seq<cases::ParamKindV>, p: int)
    requires
        0 <= p <= kinds.len(),
    ensures
        cases::cases_before(kinds, p) == before(kinds, p, |k: cases::ParamKindV| k is Case),
        sizes_before(kinds, p).len() == before(kinds, p, |k: cases::ParamKindV| k is Values),
    decreases p,
{
    let case = |k: cases::ParamKindV| k is Case;
    let values = |k: cases::ParamKindV| k is Values;
    if p == 0 {
        reveal(Seq::filter);
        assert(kinds.take(0).filter(case).len() == 0);
        assert(kinds.take(0).filter(values).len() == 0);
    } else {
        lemma_counts(kinds, p - 1);
        assert(kinds.take(p) =~= kinds.take(p - 1).push(kinds[p - 1]));
        text::lemma_filter_push(kinds.take(p - 1), kinds[p - 1], case);
        text::lemma_filter_push(kinds.take(p - 1), kinds[p - 1], values);
    }
}

/// In the case at position `k` a parameter that takes its value from the case
/// rows gets the value that stands for it in the row, the rows being gone
/// through one after the other; a parameter with listed values gets one of
/// them, and over the cases of a row every combination; the context and the
/// fixtures are passed as they are.
pub proof fn law_arguments_of_a_case(
    generated: Seq<GeneratedCaseV>,
    kinds: Seq<cases::ParamKindV>,
    rows: Seq<cases::CaseRowV>,
    name: Seq<char>,
    k: int,
    p: int,
)
    requires
        planned(generated, kinds, rows, name),
        has_dimensions(kinds, rows),
        0 <= k < generated.len(),
        0 <= p < kinds.len(),
    ensures
        ({
            let per_row = combinations(sizes_of(kinds)) as int;
            let args = generated[k].args;
            &&& args.len() == kinds.len()
            &&& kinds[p] is Ctx ==> args[p] is Ctx
            &&& kinds[p] matches cases::ParamKindV::Fixture(f) ==> args[p] == ArgSourceV::Fixture(f)
            &&& kinds[p] is Case && rows.len() > 0 ==> args[p] == ArgSourceV::Case(
                rows[k / per_row].values[before(kinds, p, |x: cases::ParamKindV| x is Case)],
            )
            &&& kinds[p] matches cases::ParamKindV::Values(values) ==> exists|t: Seq<int>|
                {
                    &&& #[trigger] picks(sizes_of(kinds), t)
                    &&& place_of(sizes_of(kinds), t) == k % per_row
                    &&& args[p] == ArgSourceV::Values(
                        values[t[before(
                            kinds,
                            p,
                            |x: cases::ParamKindV| x is Values,
                        )]],
                    )
                }
        }),
{
    let t = combinations(sizes_of(kinds)) as int;
    let r = row_count(rows) as int;
    assert(t > 0) by (nonlinear_arith)
        requires
            0 <= k < r * t,
            t >= 0,
    ;
    assert(k / t < r && 0 <= k / t && 0 <= k % t < t && k == (k / t) * t + k % t) by (nonlinear_arith)
        requires
            0 <= k < r * t,
            t > 0,
    ;
    assert(generated[(k / t) * t + k % t] == case_at(kinds, rows, name, k / t, k % t));
    lemma_counts(kinds, p);
    let tuple = choice(sizes_of(kinds), k % t);
    law_every_combination_once(sizes_of(kinds), k % t, tuple);
    if let cases::ParamKindV::Values(values) = kinds[p] {
        assert(generated[k].args[p] == ArgSourceV::Values(
            values[tuple[before(kinds, p, |x: cases::ParamKindV| x is Values)]],
        ));
    }
}

/// The sizes of the choices are the numbers of values that the parameters
/// list, in order.
pub proof fn law_sizes_are_of_the_lists(kinds: Seq<cases::ParamKindV>, p: int)
    requires
        0 <= p < kinds.len(),
    ensures
        kinds[p] matches cases::ParamKindV::Values(values) ==> sizes_of(kinds)[before(
            kinds,
            p,
            |x: cases::ParamKindV| x is Values,
        )] == values.len(),
        sizes_of(kinds).len() == before(
            kinds,
            kinds.len() as int,
            |x: cases::ParamKindV| x is Values,
        ),
{
    lemma_counts(kinds, p);
    lemma_counts(kinds, kinds.len() as int);
    lemma_sizes(kinds, p + 1, kinds.len() as int);
}

/// The name of the case at position `k` is that of the function and the
/// number of the case, counted from one, and goes on with the label of its row
/// where that has one.
pub proof fn law_names_of_cases(
    generated: Seq<GeneratedCaseV>,
    kinds: Seq<cases::ParamKindV>,
    rows: Seq<cases::CaseRowV>,
    name: Seq<char>,
    k: int,
)
    requires
        planned(generated, kinds, rows, name),
        0 <= k < generated.len(),
    ensures
        !has_dimensions(kinds, rows) ==> generated.len() == 1 && generated[0].name == name,
        has_dimensions(kinds, rows) ==> {
            let head = name + "::case_"@ + text::decimal((k + 1) as nat);
            let row = k / (combinations(sizes_of(kinds)) as int);
            &&& head.is_prefix_of(generated[k].name)
            &&& rows.len() > 0 && rows[row].label is Some ==> (head + "_"@
                + rows[row].label->0).is_prefix_of(generated[k].name)
        },
{
    if has_dimensions(kinds, rows) {
        let t = combinations(sizes_of(kinds)) as int;
        let r = row_count(rows) as int;
        assert(t > 0) by (nonlinear_arith)
            requires
                0 <= k < r * t,
                t >= 0,
        ;
        assert(k / t < r && 0 <= k / t && 0 <= k % t < t && k == (k / t) * t + k % t)
            by (nonlinear_arith)
            requires
                0 <= k < r * t,
                t > 0,
        ;
        let case = case_at(kinds, rows, name, k / t, k % t);
        assert(generated[(k / t) * t + k % t] == case);
        let label = if rows.len() == 0 {
            None
        } else {
            rows[k / t].label
        };
        let tuple = choice(sizes_of(kinds), k % t);
        let labels = labels_at(kinds, label, tuple);
        let number = text::decimal((k + 1) as nat);
        reveal_strlit("::");
        reveal_strlit("case_");
        reveal_strlit("::case_");
        assert("::case_"@ =~= "::"@ + "case_"@);
        let head = name + "::case_"@ + number;
        let rest = if labels.len() == 0 {
            Seq::<char>::empty()
        } else {
            "_"@ + text::join(labels, "_"@)
        };
        assert(case.name =~= head + rest);
        assert(case.name.take(head.len() as int) =~= head);
        if let Some(l) = label {
            let more = value_labels(kinds, tuple, kinds.len() as int);
            assert(labels == seq![l] + more);
            if more.len() == 0 {
                assert(labels =~= seq![l]);
                assert(text::join(labels, "_"@) == l);
                assert(case.name =~= head + "_"@ + l);
            } else {
                text::law_join_in_two_goes(seq![l], more, "_"@);
                assert(text::join(seq![l], "_"@) == l);
                assert(case.name =~= head + "_"@ + l + ("_"@ + text::join(more, "_"@)));
            }
            let longer = head + "_"@ + l;
            assert(case.name.take(longer.len() as int) =~= longer);
        }
    }
}

/// What the listed values add to a name are letters and digits, and never
/// nothing.
pub proof fn law_labels_are_plain(kinds: Seq<cases::ParamKindV>, tuple: Seq<int>, n: int, i: int)
    requires
        0 <= n <= kinds.len(),
        0 <= i < value_labels(kinds, tuple, n).len(),
    ensures
        value_labels(kinds, tuple, n)[i].len() > 0,
        forall|c: char| #[trigger]
            value_labels(kinds, tuple, n)[i].contains(c) ==> text::alphanumeric(c),
    decreases n,
{
    if n > 0 {
        let prior = value_labels(kinds, tuple, n - 1);
        if i < prior.len() {
            law_labels_are_plain(kinds, tuple, n - 1, i);
        } else if let cases::ParamKindV::Values(values) = kinds[n - 1] {
            let value = values[tuple[sizes_before(kinds, n - 1).len() as int]];
            assert(value_labels(kinds, tuple, n)[i] == text::only_alphanumeric(value));
            assert forall|c: char| #[trigger]
                value_labels(kinds, tuple, n)[i].contains(c) implies text::alphanumeric(c) by {
                text::lemma_filter_contains(value, |x: char| text::alphanumeric(x), c);
            }
        }
    }
}

/// The fixtures of a function are those of its parameters, one behind the
/// other, and other parameters add none.
pub proof fn law_fixtures_one_by_one(
    a: Seq<cases::ParamKindV>,
    b: Seq<cases::ParamKindV>,
    kind: cases::ParamKindV,
)
    ensures
        fixtures_of(a + b) == fixtures_of(a) + fixtures_of(b),
        fixtures_of(seq![kind]) == match kind {
            cases::ParamKindV::Fixture(name) => seq![name],
            _ => seq![],
        },
    decreases b.len(),
{
    let one = seq![kind];
    assert(one.drop_last() =~= seq![]);
    assert(fixtures_of(one.drop_last()) =~= seq![]);
    assert(one.last() == kind);
    assert(fixtures_of(one) =~= match kind {
        cases::ParamKindV::Fixture(name) => seq![name],
        _ => seq![],
    });
    if b.len() == 0 {
        assert(a + b =~= a);
        assert(fixtures_of(a) + fixtures_of(b) =~= fixtures_of(a));
    } else {
        law_fixtures_one_by_one(a, b.drop_last(), kind);
        assert((a + b).drop_last() =~= a + b.drop_last());
        assert((a + b).last() == b.last());
        assert(fixtures_of(a + b) =~= fixtures_of(a) + fixtures_of(b));
    }
}

/// The name under which a case is registered is that of its function and, where
/// there are several, the end of its own name, in upper case and behind a
/// prefix; no dash is left in either.
pub proof fn law_registration_names(name: Seq<char>, suffix: Seq<char>)
    ensures
        text::contains(registration_name(name, Some(suffix)), screaming(name)),
        text::contains(registration_name(name, Some(suffix)), screaming(suffix)),
        text::contains(registration_name(name, None), screaming(name)),
        "__RIGTEST_TESTCASE_"@.is_prefix_of(registration_name(name, Some(suffix))),
        !screaming(name).contains('-'),
        screaming(name).len() == syntax::uppercased(name).len(),
        forall|i: int|
            0 <= i < screaming(name).len() && syntax::uppercased(name)[i] != '-' ==> #[trigger] screaming(
                name,
            )[i] == syntax::uppercased(name)[i],
{
    let head = "__RIGTEST_TESTCASE_"@;
    let a = screaming(name);
    let b = screaming(suffix);
    text::lemma_stands(head, a, "_"@ + b);
    assert(head + a + ("_"@ + b) =~= head + a + "_"@ + b);
    text::lemma_stands(head + a + "_"@, b, head);
    assert((head + a + "_"@ + b).take(head.len() as int) =~= head);
    if a.contains('-') {
        let i = a.index_of('-');
        assert(a[i] == '-');
        text::law_replaced(syntax::uppercased(name), '-', '_');
    }
}

} // verus!
