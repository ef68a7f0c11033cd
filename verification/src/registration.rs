//! The source text that registers test cases.

use crate::cases;
use crate::function;
use crate::function::{Diagnostic, Function};
use crate::plan;
use crate::plan::{ArgSource, GeneratedCase, TestcasePlan};
use crate::program;
use crate::program::{Code, Ending, Fault, World, Worth};
use crate::syntax;
use crate::testcase;
use crate::testcase::{SerialMode, TestcaseSpec};
use crate::text;
use vstd::arithmetic::div_mod::*;
use vstd::prelude::*;
use vstd::string::*;

verus! {

// ── fixtures around a test ──────────────────────────────────────────────────

/// The text that sets a fixture up and opens the scope in which it is alive.
pub open spec fn setup_text(fixture: Seq<char>) -> Seq<char> {
    let given = "let "@ + fixture + " = "@;
    let call = fixture + " :: __rigtest_fixture_setup"@ + " ("@ + ":: std :: sync :: Arc :: clone (& ctx)"@ + ") . await"@;
    let kept = "let "@ + "__rigtest_body_result"@ + " : "@
        + ":: core :: result :: Result < () , :: std :: boxed :: Box < dyn :: std :: error :: Error + :: std :: marker :: Send + :: std :: marker :: Sync > >"@
        + " = "@;
    "{ "@ + given + call + " ?"@ + " ; "@ + kept + "{ "@
}

/// The text that closes a fixture's scope and tears the fixture down. What
/// stands in the scope and the teardown are run in any case; the error of the
/// teardown, boxed, is the value of the scope where what stands in it
/// succeeded, and otherwise the error of that.
pub open spec fn teardown_text(fixture: Seq<char>) -> Seq<char> {
    let call = fixture + " :: __rigtest_fixture_teardown"@ + " ("@ + ":: std :: sync :: Arc :: clone (& ctx)"@ + ") . await"@;
    let ok = "__rigtest_teardown_result"@
        + " . map_err (:: std :: boxed :: Box :: < dyn :: std :: error :: Error + :: std :: marker :: Send + :: std :: marker :: Sync > :: from)"@;
    let err = ":: core :: result :: Result :: Err ("@ + "__rigtest_body_err"@ + ")"@;
    let outcome = "match "@ + "__rigtest_body_result"@
        + " { :: core :: result :: Result :: Ok (()) => "@ + ("{ "@ + ok + " }"@)
        + " :: core :: result :: Result :: Err ("@ + "__rigtest_body_err"@ + ") => "@ + ("{ "@ + err
        + " }"@) + " }"@;
    let rest = "let "@ + "__rigtest_teardown_result"@ + " = "@ + call + " ; "@ + outcome;
    " }"@ + " ; "@ + rest + " }"@
}

/// The setups of the fixtures, first to last.
pub open spec fn setups(fixtures: Seq<Seq<char>>) -> Seq<char>
    decreases fixtures.len(),
{
    if fixtures.len() == 0 {
        seq![]
    } else {
        setups(fixtures.drop_last()) + setup_text(fixtures.last())
    }
}

/// The teardowns of the fixtures, last to first.
pub open spec fn teardowns(fixtures: Seq<Seq<char>>) -> Seq<char>
    decreases fixtures.len(),
{
    if fixtures.len() == 0 {
        seq![]
    } else {
        teardown_text(fixtures.last()) + teardowns(fixtures.drop_last())
    }
}

/// `inner` with the fixtures set up before it, first to last, and torn down
/// after it, last to first.
pub open spec fn wrapped(inner: Seq<char>, fixtures: Seq<Seq<char>>) -> Seq<char> {
    setups(fixtures) + inner + teardowns(fixtures)
}

fn wrap_fixture(inner: &str, fixture: &str) -> (r: String)
    ensures
        r@ == setup_text(fixture@) + inner@ + teardown_text(fixture@),
{
    let mut given = "let ".to_owned();
    given.append(fixture);
    given.append(" = ");
    let mut call = fixture.to_owned();
    call.append(" :: __rigtest_fixture_setup");
    call.append(" (");
    call.append(":: std :: sync :: Arc :: clone (& ctx)");
    call.append(") . await");
    let mut kept = "let ".to_owned();
    kept.append("__rigtest_body_result");
    kept.append(" : ");
    kept.append(":: core :: result :: Result < () , :: std :: boxed :: Box < dyn :: std :: error :: Error + :: std :: marker :: Send + :: std :: marker :: Sync > >");
    kept.append(" = ");
    let mut r = "{ ".to_owned();
    r.append(&given);
    r.append(&call);
    r.append(" ?");
    r.append(" ; ");
    r.append(&kept);
    r.append("{ ");
    assert(r@ == setup_text(fixture@));
    r.append(inner);
    let mut call = fixture.to_owned();
    call.append(" :: __rigtest_fixture_teardown");
    call.append(" (");
    call.append(":: std :: sync :: Arc :: clone (& ctx)");
    call.append(") . await");
    let mut done = "__rigtest_teardown_result".to_owned();
    done.append(" . map_err (:: std :: boxed :: Box :: < dyn :: std :: error :: Error + :: std :: marker :: Send + :: std :: marker :: Sync > :: from)");
    let mut ok = "{ ".to_owned();
    ok.append(&done);
    ok.append(" }");
    let mut err = ":: core :: result :: Result :: Err (".to_owned();
    err.append("__rigtest_body_err");
    err.append(")");
    let mut failed = "{ ".to_owned();
    failed.append(&err);
    failed.append(" }");
    let mut outcome = "match ".to_owned();
    outcome.append("__rigtest_body_result");
    outcome.append(" { :: core :: result :: Result :: Ok (()) => ");
    outcome.append(&ok);
    outcome.append(" :: core :: result :: Result :: Err (");
    outcome.append("__rigtest_body_err");
    outcome.append(") => ");
    outcome.append(&failed);
    outcome.append(" }");
    let mut rest = "let ".to_owned();
    rest.append("__rigtest_teardown_result");
    rest.append(" = ");
    rest.append(&call);
    rest.append(" ; ");
    rest.append(&outcome);
    let mut after = " }".to_owned();
    after.append(" ; ");
    after.append(&rest);
    after.append(" }");
    assert(after@ == teardown_text(fixture@));
    r.append(&after);
    r
}

proof fn lemma_wrap_outward(inner: Seq<char>, fixtures: Seq<Seq<char>>, n: int)
    requires
        0 < n <= fixtures.len(),
    ensures
        wrapped(inner, fixtures.take(n)) == wrapped(
            setup_text(fixtures[n - 1]) + inner + teardown_text(fixtures[n - 1]),
            fixtures.take(n - 1),
        ),
{
    let head = fixtures.take(n);
    assert(head.drop_last() =~= fixtures.take(n - 1));
    lemma_regroup(
        setups(fixtures.take(n - 1)),
        setup_text(fixtures[n - 1]),
        inner,
        teardown_text(fixtures[n - 1]),
        teardowns(fixtures.take(n - 1)),
    );
}

/// `inner` with the fixtures set up before it, first to last, and torn down
/// after it, last to first.
pub fn wrap_fixtures(inner: &str, fixtures: &Vec<String>) -> (r: String)
    ensures
        r@ == wrapped(inner@, fixtures.deep_view()),
{
    let ghost all = fixtures.deep_view();
    let mut r = inner.to_owned();
    let mut n: usize = fixtures.len();
    assert(all.take(n as int) =~= all);
    while n > 0
        invariant
            n <= fixtures@.len(),
            all == fixtures.deep_view(),
            wrapped(r@, all.take(n as int)) == wrapped(inner@, all),
        decreases n,
    {
        proof {
            lemma_wrap_outward(r@, all, n as int);
            assert(all[n - 1] == fixtures@[n - 1]@);
        }
        r = wrap_fixture(&r, &fixtures[n - 1]);
        n -= 1;
    }
    assert(wrapped(r@, all.take(0)) =~= r@);
    r
}

// ── the call of the test function ───────────────────────────────────────────

/// The text of what is passed for a parameter. The context is handed on as it
/// is, unless fixtures need it afterwards.
pub open spec fn arg_text(arg: plan::ArgSourceV, has_fixtures: bool) -> Seq<char> {
    match arg {
        plan::ArgSourceV::Ctx => if has_fixtures {
            ":: std :: sync :: Arc :: clone (& ctx)"@
        } else {
            "ctx"@
        },
        plan::ArgSourceV::Case(e) => e,
        plan::ArgSourceV::Values(e) => e,
        plan::ArgSourceV::Fixture(name) => name,
    }
}

/// The texts of what is passed for each parameter.
pub open spec fn arg_texts(args: Seq<plan::ArgSourceV>, has_fixtures: bool) -> Seq<Seq<char>> {
    args.map_values(|a: plan::ArgSourceV| arg_text(a, has_fixtures))
}

/// The texts of what is passed for each parameter.
pub fn build_call_args(args: &Vec<ArgSource>, has_fixtures: bool) -> (r: Vec<String>)
    ensures
        r.deep_view() == arg_texts(args.deep_view(), has_fixtures),
{
    let mut out: Vec<String> = Vec::new();
    let mut i: usize = 0;
    while i < args.len()
        invariant
            i <= args@.len(),
            out@.len() == i,
            forall|k: int|
                0 <= k < i ==> (#[trigger] out@[k])@ == arg_text(args@[k].deep_view(), has_fixtures),
        decreases args@.len() - i,
    {
        out.push(
            match &args[i] {
                ArgSource::Ctx => if has_fixtures {
                    ":: std :: sync :: Arc :: clone (& ctx)".to_owned()
                } else {
                    "ctx".to_owned()
                },
                ArgSource::Case(e) => e.clone(),
                ArgSource::Values(e) => e.clone(),
                ArgSource::Fixture(name) => name.clone(),
            },
        );
        i += 1;
    }
    assert(out.deep_view() =~= arg_texts(args.deep_view(), has_fixtures));
    out
}

/// The text of the call of the test function, with its arguments.
pub open spec fn call_text(func: Seq<char>, args: Seq<Seq<char>>) -> Seq<char> {
    func + " ("@ + text::join(args, " , "@) + ") . await"@
}

/// The text that runs the test function. With an error pattern, an error that
/// the pattern does not accept is marked as one that is not retried.
pub open spec fn body_text(
    func: Seq<char>,
    args: Seq<Seq<char>>,
    retry_on_error: Option<Seq<char>>,
) -> Seq<char> {
    match retry_on_error {
        None => call_text(func, args),
        Some(pat) => {
            let eligible = "matches ! (& "@ + "__rigtest_err"@ + " , "@ + pat + ")"@;
            let boxed = ":: std :: boxed :: Box :: from ("@ + "__rigtest_err"@ + ")"@;
            let marked = ":: std :: boxed :: Box :: new (:: rigtest :: NotRetryEligible ("@
                + "__rigtest_boxed"@ + ") ,)"@;
            let chosen = "if "@ + "__rigtest_eligible"@ + " { "@ + "__rigtest_boxed"@
                + " } else { "@ + marked + " }"@;
            let failed = ":: core :: result :: Result :: Err ("@ + "__rigtest_result"@ + ")"@;
            let third = "let "@ + "__rigtest_result"@ + " : "@ + ":: std :: boxed :: Box < dyn :: std :: error :: Error + :: std :: marker :: Send + :: std :: marker :: Sync , >"@ + " = "@ + chosen + " ; "@
                + failed;
            let second = "let "@ + "__rigtest_boxed"@ + " : "@ + ":: std :: boxed :: Box < dyn :: std :: error :: Error + :: std :: marker :: Send + :: std :: marker :: Sync , >"@ + " = "@ + boxed + " ; "@
                + third;
            let first = "let "@ + "__rigtest_eligible"@ + " = "@ + eligible + " ; "@ + second;
            "match "@ + call_text(func, args) + " { :: core :: result :: Result :: Ok (()) => "@
                + (":: core :: result :: Result :: Ok (())"@ + " ,"@)
                + " :: core :: result :: Result :: Err ("@ + "__rigtest_err"@ + ") => "@ + ("{ "@
                + first + " }"@) + " }"@
        },
    }
}

/// The text that runs the test function.
pub fn build_testcase_body(func: &str, args: &Vec<String>, retry_on_error: &Option<String>) -> (r:
    String)
    ensures
        r@ == body_text(func@, args.deep_view(), retry_on_error.deep_view()),
{
    let mut call = func.to_owned();
    call.append(" (");
    call.append(&text::joined(args, " , "));
    call.append(") . await");
    match retry_on_error {
        None => call,
        Some(pat) => {
            let mut eligible = "matches ! (& ".to_owned();
            eligible.append("__rigtest_err");
            eligible.append(" , ");
            eligible.append(pat);
            eligible.append(")");
            let mut boxed = ":: std :: boxed :: Box :: from (".to_owned();
            boxed.append("__rigtest_err");
            boxed.append(")");
            let mut marked = ":: std :: boxed :: Box :: new (:: rigtest :: NotRetryEligible (".to_owned();
            marked.append("__rigtest_boxed");
            marked.append(") ,)");
            let mut chosen = "if ".to_owned();
            chosen.append("__rigtest_eligible");
            chosen.append(" { ");
            chosen.append("__rigtest_boxed");
            chosen.append(" } else { ");
            chosen.append(&marked);
            chosen.append(" }");
            let mut failed = ":: core :: result :: Result :: Err (".to_owned();
            failed.append("__rigtest_result");
            failed.append(")");
            let mut third = "let ".to_owned();
            third.append("__rigtest_result");
            third.append(" : ");
            third.append(":: std :: boxed :: Box < dyn :: std :: error :: Error + :: std :: marker :: Send + :: std :: marker :: Sync , >");
            third.append(" = ");
            third.append(&chosen);
            third.append(" ; ");
            third.append(&failed);
            let mut second = "let ".to_owned();
            second.append("__rigtest_boxed");
            second.append(" : ");
            second.append(":: std :: boxed :: Box < dyn :: std :: error :: Error + :: std :: marker :: Send + :: std :: marker :: Sync , >");
            second.append(" = ");
            second.append(&boxed);
            second.append(" ; ");
            second.append(&third);
            let mut first = "let ".to_owned();
            first.append("__rigtest_eligible");
            first.append(" = ");
            first.append(&eligible);
            first.append(" ; ");
            first.append(&second);
            let mut ok = ":: core :: result :: Result :: Ok (())".to_owned();
            ok.append(" ,");
            let mut err = "{ ".to_owned();
            err.append(&first);
            err.append(" }");
            let mut r = "match ".to_owned();
            r.append(&call);
            r.append(" { :: core :: result :: Result :: Ok (()) => ");
            r.append(&ok);
            r.append(" :: core :: result :: Result :: Err (");
            r.append("__rigtest_err");
            r.append(") => ");
            r.append(&err);
            r.append(" }");
            r
        },
    }
}

// ── registrations ───────────────────────────────────────────────────────────

/// The text of a truth value.
pub open spec fn bool_text(b: bool) -> Seq<char> {
    if b {
        "true"@
    } else {
        "false"@
    }
}

fn bool_str(b: bool) -> (r: &'static str)
    ensures
        r@ == bool_text(b),
{
    if b {
        "true"
    } else {
        "false"
    }
}

/// The text of an optional expression.
pub open spec fn option_text(e: Option<Seq<char>>) -> Seq<char> {
    match e {
        Some(e) => "Some ("@ + e + ")"@,
        None => "None"@,
    }
}

fn option_string(e: Option<&String>) -> (r: String)
    ensures
        r@ == option_text(e.deep_view()),
{
    match e {
        Some(e) => {
            let mut r = "Some (".to_owned();
            r.append(e);
            r.append(")");
            r
        },
        None => "None".to_owned(),
    }
}

/// The group of a test, where it has one.
pub open spec fn group_of(serial: testcase::SerialModeV) -> Option<Seq<char>> {
    match serial {
        testcase::SerialModeV::Group { text, value } => Some(text),
        _ => None,
    }
}

/// The text of a list of tags.
pub open spec fn tags_text(tags: Seq<(Seq<char>, Seq<char>)>) -> Seq<char> {
    "& ["@ + text::join(tags.map_values(|t: (Seq<char>, Seq<char>)| t.0), " , "@)
        + "] as & 'static [& 'static str]"@
}

fn tags_string(tags: &Vec<(String, String)>) -> (r: String)
    ensures
        r@ == tags_text(tags.deep_view()),
{
    let mut parts: Vec<String> = Vec::new();
    let mut i: usize = 0;
    while i < tags.len()
        invariant
            i <= tags@.len(),
            parts@.len() == i,
            forall|k: int| 0 <= k < i ==> (#[trigger] parts@[k])@ == tags@[k].0@,
        decreases tags@.len() - i,
    {
        parts.push(tags[i].0.clone());
        i += 1;
    }
    assert(parts.deep_view() =~= tags.deep_view().map_values(
        |t: (Seq<char>, Seq<char>)| t.0,
    ));
    let mut r = "& [".to_owned();
    r.append(&text::joined(&parts, " , "));
    r.append("] as & 'static [& 'static str]");
    r
}

/// The text of the number of retries.
pub open spec fn retries_text(retries: Option<Seq<char>>) -> Seq<char> {
    match retries {
        Some(e) => e,
        None => "0u32"@,
    }
}

/// What a test's attribute says, as arguments of its registration: whether it
/// runs alone, its group, its timeout, whether it runs without any, its
/// retries, whether it declares an error pattern, and its tags.
pub open spec fn flags_text(spec: testcase::TestcaseSpecV) -> Seq<char> {
    bool_text(spec.serial is Exclusive) + " , "@ + option_text(group_of(spec.serial)) + " , "@
        + option_text(spec.timeout) + " , "@ + bool_text(spec.no_timeout) + " , "@ + retries_text(
        spec.retries,
    ) + " , "@ + bool_text(spec.retry_on_error is Some) + " , "@ + tags_text(spec.tags)
}

fn flags_string(spec: &TestcaseSpec) -> (r: String)
    ensures
        r@ == flags_text(spec.deep_view()),
{
    let mut r = bool_str(matches!(spec.serial, SerialMode::Exclusive)).to_owned();
    let group = match &spec.serial {
        SerialMode::Group { text, value } => Some(text),
        _ => None,
    };
    r.append(" , ");
    r.append(&option_string(group));
    r.append(" , ");
    r.append(&option_string(spec.timeout.as_ref()));
    r.append(" , ");
    r.append(bool_str(spec.no_timeout));
    r.append(" , ");
    match &spec.retries {
        Some(e) => r.append(e),
        None => r.append("0u32"),
    }
    r.append(" , ");
    r.append(bool_str(spec.retry_on_error.is_some()));
    r.append(" , ");
    r.append(&tags_string(&spec.tags));
    r
}

/// The text that registers one test case of the function `func`.
pub open spec fn registration_text(
    func: Seq<char>,
    spec: testcase::TestcaseSpecV,
    fixtures: Seq<Seq<char>>,
    case: plan::GeneratedCaseV,
) -> Seq<char> {
    "# [:: rigtest :: __linkme :: distributed_slice (:: rigtest :: registry :: RIG_TEST_CASES)] # [linkme (crate = :: rigtest :: __linkme)] static "@
        + case.static_ident
        + " : :: rigtest :: registry :: TestCase = :: rigtest :: registry :: TestCase :: new ("@
        + syntax::string_literal(case.name) + " , module_path ! () , file ! () , "@ + flags_text(
        spec,
    ) + " , | ctx | :: std :: boxed :: Box :: pin (async move { "@ + wrapped(
        body_text(func, arg_texts(case.args, fixtures.len() > 0), spec.retry_on_error),
        fixtures,
    ) + " }) ,) ;"@
}

fn registration(func: &str, plan: &TestcasePlan, case: &GeneratedCase) -> (r: String)
    ensures
        r@ == registration_text(
            func@,
            plan.spec.deep_view(),
            plan.fixtures.deep_view(),
            case.deep_view(),
        ),
{
    let args = build_call_args(&case.args, plan.fixtures.len() > 0);
    let inner = build_testcase_body(func, &args, &plan.spec.retry_on_error);
    let mut r =
        "# [:: rigtest :: __linkme :: distributed_slice (:: rigtest :: registry :: RIG_TEST_CASES)] # [linkme (crate = :: rigtest :: __linkme)] static ".to_owned();
    r.append(&case.static_ident);
    r.append(
        " : :: rigtest :: registry :: TestCase = :: rigtest :: registry :: TestCase :: new (",
    );
    r.append(&syntax::literal(&case.name));
    r.append(" , module_path ! () , file ! () , ");
    r.append(&flags_string(&plan.spec));
    r.append(" , | ctx | :: std :: boxed :: Box :: pin (async move { ");
    r.append(&wrap_fixtures(&inner, &plan.fixtures));
    r.append(" }) ,) ;");
    r
}

/// The text that registers the test cases of the function `func`, each behind
/// the other.
pub open spec fn registrations_text(
    func: Seq<char>,
    spec: testcase::TestcaseSpecV,
    fixtures: Seq<Seq<char>>,
    generated: Seq<plan::GeneratedCaseV>,
) -> Seq<char>
    decreases generated.len(),
{
    if generated.len() == 0 {
        seq![]
    } else {
        registrations_text(func, spec, fixtures, generated.drop_last()) + registration_text(
            func,
            spec,
            fixtures,
            generated.last(),
        ) + " "@
    }
}

/// The text that registers the test cases of the function `func`.
pub fn generate(func: &str, plan: &TestcasePlan) -> (r: String)
    ensures
        r@ == registrations_text(
            func@,
            plan.spec.deep_view(),
            plan.fixtures.deep_view(),
            plan.cases.deep_view(),
        ),
{
    let ghost all = plan.cases.deep_view();
    let mut r = String::new();
    let mut i: usize = 0;
    while i < plan.cases.len()
        invariant
            i <= plan.cases@.len(),
            all == plan.cases.deep_view(),
            r@ == registrations_text(
                func@,
                plan.spec.deep_view(),
                plan.fixtures.deep_view(),
                all.take(i as int),
            ),
        decreases plan.cases@.len() - i,
    {
        proof {
            assert(all.take(i + 1).drop_last() =~= all.take(i as int));
            assert(all.take(i + 1).last() == plan.cases@[i as int].deep_view());
        }
        r.append(&registration(func, plan, &plan.cases[i]));
        r.append(" ");
        i += 1;
    }
    assert(all.take(i as int) =~= all);
    r
}

// ── the whole expansion ─────────────────────────────────────────────────────

/// The expansion of a `#[testcase]` function: the function itself without its
/// case rows and markers, and the text that registers its test cases.
#[derive(Debug)]
pub struct Expansion {
    /// The positions of the function's attributes that stay.
    pub kept_attrs: Vec<usize>,
    /// The positions of each parameter's attributes that stay.
    pub kept_param_attrs: Vec<Vec<usize>>,
    /// The registrations.
    pub registrations: String,
}

pub struct ExpansionV {
    pub kept_attrs: Seq<usize>,
    pub kept_param_attrs: Seq<Seq<usize>>,
    pub registrations: Seq<char>,
}

impl DeepView for Expansion {
    type V = ExpansionV;

    open spec fn deep_view(&self) -> ExpansionV {
        ExpansionV {
            kept_attrs: self.kept_attrs@,
            kept_param_attrs: self.kept_param_attrs.deep_view(),
            registrations: self.registrations@,
        }
    }
}

/// The cases of the function `name`, in order.
pub open spec fn cases_of(
    kinds: Seq<cases::ParamKindV>,
    rows: Seq<cases::CaseRowV>,
    name: Seq<char>,
) -> Seq<plan::GeneratedCaseV> {
    if plan::has_dimensions(kinds, rows) {
        let per_row = plan::combinations(plan::sizes_of(kinds)) as int;
        Seq::new(
            (plan::row_count(rows) * per_row) as nat,
            |k: int| plan::case_at(kinds, rows, name, k / per_row, k % per_row),
        )
    } else {
        seq![plan::only_case(kinds, name)]
    }
}

proof fn lemma_cases_of(
    generated: Seq<plan::GeneratedCaseV>,
    kinds: Seq<cases::ParamKindV>,
    rows: Seq<cases::CaseRowV>,
    name: Seq<char>,
)
    requires
        plan::planned(generated, kinds, rows, name),
    ensures
        generated == cases_of(kinds, rows, name),
{
    if plan::has_dimensions(kinds, rows) {
        let t = plan::combinations(plan::sizes_of(kinds)) as int;
        let r = plan::row_count(rows) as int;
        assert(r * t >= 0) by (nonlinear_arith)
            requires
                r >= 0,
                t >= 0,
        ;
        assert forall|k: int| 0 <= k < r * t implies generated[k] == plan::case_at(
            kinds,
            rows,
            name,
            k / t,
            k % t,
        ) by {
            assert(t > 0) by (nonlinear_arith)
                requires
                    0 <= k < r * t,
                    t >= 0,
            ;
            assert(k / t < r && 0 <= k / t && 0 <= k % t < t && k == (k / t) * t + k % t)
                by (nonlinear_arith)
                requires
                    0 <= k < r * t,
                    t > 0,
            ;
            assert(generated[(k / t) * t + k % t] == plan::case_at(kinds, rows, name, k / t, k % t));
        }
        assert(generated =~= cases_of(kinds, rows, name));
    }
}

/// The expansion of the function `f` whose attribute says `spec`, or what is
/// wrong with it.
pub open spec fn expansion_of(spec: testcase::TestcaseSpecV, f: function::FunctionV) -> Result<
    ExpansionV,
    function::DiagnosticV,
> {
    if spec.retry_on_error is Some && cases::retry_output_error(f.output) is Some {
        Err(cases::retry_output_error(f.output)->0)
    } else {
        match cases::rows_of(f.attrs) {
            Err(d) => Err(d),
            Ok((rows, kept_attrs)) => match cases::kinds_of(f.params) {
                Err(d) => Err(d),
                Ok((kinds, kept_param_attrs)) => match cases::shape_error(rows, kinds) {
                    Some(d) => Err(d),
                    None => Ok(
                        ExpansionV {
                            kept_attrs,
                            kept_param_attrs,
                            registrations: registrations_text(
                                f.name,
                                spec,
                                plan::fixtures_of(kinds),
                                cases_of(kinds, rows, f.name),
                            ),
                        },
                    ),
                },
            },
        }
    }
}

/// Whether an expansion or a diagnostic is the one that is meant.
pub open spec fn same_expansion(
    r: Result<Expansion, Diagnostic>,
    want: Result<ExpansionV, function::DiagnosticV>,
) -> bool {
    match r {
        Ok(e) => want == Ok::<ExpansionV, function::DiagnosticV>(e.deep_view()),
        Err(d) => want == Err::<ExpansionV, function::DiagnosticV>(d.deep_view()),
    }
}

/// Expands the function `func` whose attribute says `spec`.
pub fn expand_function(spec: TestcaseSpec, func: &Function) -> (r: Result<Expansion, Diagnostic>)
    ensures
        same_expansion(r, expansion_of(spec.deep_view(), func.deep_view())),
{
    if spec.retry_on_error.is_some() {
        if let Some(d) = cases::validate_retry_on_error_signature(func) {
            return Err(d);
        }
    }
    let (rows, kept_attrs) = match cases::extract_case_rows(&func.attrs) {
        Ok(x) => x,
        Err(d) => return Err(d),
    };
    let (kinds, kept_param_attrs) = match cases::classify_params(&func.params) {
        Ok(x) => x,
        Err(d) => return Err(d),
    };
    if let Some(d) = cases::validate_case_shape(&rows, &kinds) {
        return Err(d);
    }
    let plan = plan::plan(spec, &kinds, &rows, &func.name);
    proof {
        lemma_cases_of(
            plan.cases.deep_view(),
            kinds.deep_view(),
            rows.deep_view(),
            func.name@,
        );
    }
    let registrations = generate(&func.name, &plan);
    Ok(Expansion { kept_attrs, kept_param_attrs, registrations })
}

/// The expansion of `#[testcase(attr)]` on `item`, or what is wrong with it.
pub open spec fn expansion_in(attr: Seq<char>, item: Seq<char>) -> Result<
    ExpansionV,
    function::DiagnosticV,
> {
    match function::function_in(item) {
        Err(e) => Err(function::diag(function::Place::UnreadItem, e)),
        Ok(f) => match testcase::spec_of_args(testcase::args_in(attr)) {
            Err(d) => Err(d),
            Ok(spec) => expansion_of(spec, f),
        },
    }
}

/// Expands `#[testcase(attr)]` on `item`.
pub fn expand(attr: &str, item: &str) -> (r: Result<Expansion, Diagnostic>)
    ensures
        same_expansion(r, expansion_in(attr@, item@)),
{
    let func = match function::read_function(item) {
        Ok(f) => f,
        Err(d) => return Err(d),
    };
    match testcase::parse_spec(attr) {
        Ok(spec) => expand_function(spec, &func),
        Err(d) => Err(d),
    }
}

// ── laws ────────────────────────────────────────────────────────────────────

/// `inner` in the scope of a fixture.
pub open spec fn scope_text(fixture: Seq<char>, inner: Seq<char>) -> Seq<char> {
    setup_text(fixture) + inner + teardown_text(fixture)
}

/// `inner` in the scopes of fixtures, each inside the one before.
pub open spec fn nested(inner: Seq<char>, fixtures: Seq<Seq<char>>) -> Seq<char>
    decreases fixtures.len(),
{
    if fixtures.len() == 0 {
        inner
    } else {
        scope_text(fixtures[0], nested(inner, fixtures.skip(1)))
    }
}

proof fn lemma_split_first(fixtures: Seq<Seq<char>>)
    requires
        fixtures.len() > 0,
    ensures
        setups(fixtures) == setup_text(fixtures[0]) + setups(fixtures.skip(1)),
        teardowns(fixtures) == teardowns(fixtures.skip(1)) + teardown_text(fixtures[0]),
    decreases fixtures.len(),
{
    let rest = fixtures.skip(1);
    if fixtures.len() == 1 {
        assert(fixtures.drop_last() =~= seq![]);
        assert(rest =~= seq![]);
        lemma_empty(setup_text(fixtures[0]));
        lemma_empty(teardown_text(fixtures[0]));
    } else {
        lemma_split_first(fixtures.drop_last());
        let mid = rest.drop_last();
        assert(fixtures.drop_last().skip(1) =~= mid);
        assert(rest.last() == fixtures.last());
        lemma_regroup_two(setup_text(fixtures[0]), setups(mid), setup_text(rest.last()));
        lemma_regroup_two(teardown_text(rest.last()), teardowns(mid), teardown_text(fixtures[0]));
    }
}

proof fn lemma_empty(a: Seq<char>)
    ensures
        a + seq![] == a,
        seq![] + a == a,
{
    assert(a + seq![] =~= a);
    assert(seq![] + a =~= a);
}

proof fn lemma_regroup_two(a: Seq<char>, b: Seq<char>, c: Seq<char>)
    ensures
        (a + b) + c == a + (b + c),
{
    assert((a + b) + c =~= a + (b + c));
}

/// What is wrapped in fixtures stands in their scopes, each of which stands in
/// the scope of the fixture before.
pub proof fn law_scopes_are_nested(inner: Seq<char>, fixtures: Seq<Seq<char>>)
    ensures
        wrapped(inner, fixtures) == nested(inner, fixtures),
    decreases fixtures.len(),
{
    if fixtures.len() == 0 {
        assert(wrapped(inner, fixtures) =~= inner);
    } else {
        let rest = fixtures.skip(1);
        law_scopes_are_nested(inner, rest);
        lemma_split_first(fixtures);
        lemma_regroup(
            setup_text(fixtures[0]),
            setups(rest),
            inner,
            teardowns(rest),
            teardown_text(fixtures[0]),
        );
    }
}

proof fn lemma_regroup(
    a: Seq<char>,
    b: Seq<char>,
    c: Seq<char>,
    d: Seq<char>,
    e: Seq<char>,
)
    ensures
        (a + b) + c + (d + e) == a + (b + c + d) + e,
{
    assert((a + b) + c + (d + e) =~= a + (b + c + d) + e);
}

/// A call that the text of a test makes.
pub enum Call {
    Setup(Seq<char>),
    Body,
    Teardown(Seq<char>),
}

/// What the calls come to: the error of each fixture's setup and teardown, and
/// of the test function, where there is one.
pub struct Answers {
    pub setup: spec_fn(Seq<char>) -> Option<Fault>,
    pub body: Option<Fault>,
    pub teardown: spec_fn(Seq<char>) -> Option<Fault>,
}

/// What running nested scopes comes to.
pub struct Course {
    /// The calls, in order.
    pub calls: Seq<Call>,
    /// Whether a setup failed, and every scope was left at once.
    pub left: bool,
    /// The error, where there is one.
    pub error: Option<Fault>,
}

/// What running nested scopes comes to, as `scope_text` has it: the setup,
/// which leaves every scope where it fails; what stands in the scope; the
/// teardown; and of two errors the one that comes first.
pub open spec fn course(fixtures: Seq<Seq<char>>, a: Answers) -> Course
    decreases fixtures.len(),
{
    if fixtures.len() == 0 {
        Course { calls: seq![Call::Body], left: false, error: a.body }
    } else {
        let setup = seq![Call::Setup(fixtures[0])];
        let inner = course(fixtures.skip(1), a);
        if (a.setup)(fixtures[0]) is Some {
            Course { calls: setup, left: true, error: (a.setup)(fixtures[0]) }
        } else if inner.left {
            Course { calls: setup + inner.calls, ..inner }
        } else {
            Course {
                calls: setup + inner.calls + seq![Call::Teardown(fixtures[0])],
                left: false,
                error: if inner.error is Some {
                    inner.error
                } else {
                    (a.teardown)(fixtures[0])
                },
            }
        }
    }
}

/// The first error among the teardowns of fixtures, last to first.
pub open spec fn teardown_error(fixtures: Seq<Seq<char>>, a: Answers) -> Option<Fault>
    decreases fixtures.len(),
{
    if fixtures.len() == 0 {
        None
    } else if (a.teardown)(fixtures.last()) is Some {
        (a.teardown)(fixtures.last())
    } else {
        teardown_error(fixtures.drop_last(), a)
    }
}

proof fn lemma_teardown_error_first(fixtures: Seq<Seq<char>>, a: Answers)
    requires
        fixtures.len() > 0,
    ensures
        teardown_error(fixtures, a) == if teardown_error(fixtures.skip(1), a) is Some {
            teardown_error(fixtures.skip(1), a)
        } else {
            (a.teardown)(fixtures[0])
        },
    decreases fixtures.len(),
{
    let rest = fixtures.skip(1);
    if fixtures.len() == 1 {
        assert(fixtures.drop_last() =~= seq![]);
        assert(rest =~= seq![]);
    } else {
        lemma_teardown_error_first(fixtures.drop_last(), a);
        assert(fixtures.drop_last().skip(1) =~= rest.drop_last());
        assert(rest.last() == fixtures.last());
    }
}

/// Where every setup succeeds, fixtures are set up first to last, then the
/// test function is called, then every fixture is torn down, last to first,
/// whatever the test function and the other teardowns came to. The test fails
/// with the error of the test function, or else with that of the first
/// teardown that failed.
pub proof fn law_fixtures_are_torn_down(fixtures: Seq<Seq<char>>, a: Answers)
    requires
        forall|i: int| 0 <= i < fixtures.len() ==> (a.setup)(#[trigger] fixtures[i]) is None,
    ensures
        course(fixtures, a).calls == fixtures.map_values(|f: Seq<char>| Call::Setup(f)) + seq![
            Call::Body,
        ] + fixtures.reverse().map_values(|f: Seq<char>| Call::Teardown(f)),
        course(fixtures, a).error == if a.body is Some {
            a.body
        } else {
            teardown_error(fixtures, a)
        },
        !course(fixtures, a).left,
    decreases fixtures.len(),
{
    if fixtures.len() == 0 {
        assert(course(fixtures, a).calls =~= fixtures.map_values(
            |f: Seq<char>| Call::Setup(f),
        ) + seq![Call::Body] + fixtures.reverse().map_values(|f: Seq<char>| Call::Teardown(f)));
    } else {
        let rest = fixtures.skip(1);
        assert forall|i: int| 0 <= i < rest.len() implies (a.setup)(#[trigger] rest[i]) is None by {
            assert(rest[i] == fixtures[i + 1]);
        }
        law_fixtures_are_torn_down(rest, a);
        lemma_teardown_error_first(fixtures, a);
        assert((a.setup)(fixtures[0]) is None);
        assert(course(fixtures, a).calls =~= fixtures.map_values(
            |f: Seq<char>| Call::Setup(f),
        ) + seq![Call::Body] + fixtures.reverse().map_values(|f: Seq<char>| Call::Teardown(f)));
    }
}

/// Where a setup fails, neither a later fixture is set up nor the test
/// function called nor any fixture torn down, and the test fails with the
/// error of that setup.
pub proof fn law_failed_setup_ends_the_test(fixtures: Seq<Seq<char>>, a: Answers, n: int)
    requires
        0 <= n < fixtures.len(),
        (a.setup)(fixtures[n]) is Some,
        forall|i: int| 0 <= i < n ==> (a.setup)(#[trigger] fixtures[i]) is None,
    ensures
        course(fixtures, a).calls == fixtures.take(n + 1).map_values(
            |f: Seq<char>| Call::Setup(f),
        ),
        course(fixtures, a).error == (a.setup)(fixtures[n]),
        course(fixtures, a).left,
    decreases fixtures.len(),
{
    if n > 0 {
        let rest = fixtures.skip(1);
        assert forall|i: int| 0 <= i < n - 1 implies (a.setup)(#[trigger] rest[i]) is None by {
            assert(rest[i] == fixtures[i + 1]);
        }
        law_failed_setup_ends_the_test(rest, a, n - 1);
        assert((a.setup)(fixtures[0]) is None);
    }
    assert(course(fixtures, a).calls =~= fixtures.take(n + 1).map_values(
        |f: Seq<char>| Call::Setup(f),
    ));
}

/// The code that fails with the boxed error, marked unless it is eligible.
pub open spec fn marking_code() -> Code {
    Code::Let {
        name: "__rigtest_result"@,
        ty: Some(":: std :: boxed :: Box < dyn :: std :: error :: Error + :: std :: marker :: Send + :: std :: marker :: Sync , >"@),
        value: Box::new(
            Code::If {
                cond: Box::new(Code::Name("__rigtest_eligible"@)),
                yes: Box::new(Code::Name("__rigtest_boxed"@)),
                no: Box::new(Code::Marked(Box::new(Code::Name("__rigtest_boxed"@)))),
            },
        ),
        rest: Box::new(Code::Fail(Box::new(Code::Name("__rigtest_result"@)))),
    }
}

/// The code that puts the error in a box before that.
pub open spec fn boxing_code() -> Code {
    Code::Let {
        name: "__rigtest_boxed"@,
        ty: Some(":: std :: boxed :: Box < dyn :: std :: error :: Error + :: std :: marker :: Send + :: std :: marker :: Sync , >"@),
        value: Box::new(Code::Boxed(Box::new(Code::Name("__rigtest_err"@)))),
        rest: Box::new(marking_code()),
    }
}

/// The code that finds out before that whether the pattern matches the error.
pub open spec fn matching_code(pattern: Seq<char>) -> Code {
    Code::Let {
        name: "__rigtest_eligible"@,
        ty: None,
        value: Box::new(
            Code::Matches { on: Box::new(Code::Name("__rigtest_err"@)), pattern },
        ),
        rest: Box::new(boxing_code()),
    }
}

/// The code that runs the test function. With an error pattern, an error that
/// the pattern does not match is marked as one that is not retried.
pub open spec fn body_code(
    func: Seq<char>,
    args: Seq<Seq<char>>,
    retry_on_error: Option<Seq<char>>,
) -> Code {
    let call = Code::Call { path: func, args };
    match retry_on_error {
        None => call,
        Some(pattern) => Code::Match {
            on: Box::new(call),
            ok: Box::new(Code::Done),
            name: "__rigtest_err"@,
            err: Box::new(Code::Block(Box::new(matching_code(pattern)))),
        },
    }
}

/// What is passed to a fixture.
pub open spec fn fixture_args() -> Seq<Seq<char>> {
    seq![":: std :: sync :: Arc :: clone (& ctx)"@]
}

/// The call that sets a fixture up.
pub open spec fn setup_call(fixture: Seq<char>) -> (Seq<char>, Seq<Seq<char>>) {
    (fixture + " :: __rigtest_fixture_setup"@, fixture_args())
}

/// The call that tears a fixture down.
pub open spec fn teardown_call(fixture: Seq<char>) -> (Seq<char>, Seq<Seq<char>>) {
    (fixture + " :: __rigtest_fixture_teardown"@, fixture_args())
}

/// The last part of a fixture's scope: the teardown, and what the scope comes
/// to.
pub open spec fn teardown_code(fixture: Seq<char>) -> Code {
    Code::Let {
        name: "__rigtest_teardown_result"@,
        ty: None,
        value: Box::new(
            Code::Call { path: teardown_call(fixture).0, args: teardown_call(fixture).1 },
        ),
        rest: Box::new(
            Code::Match {
                on: Box::new(Code::Name("__rigtest_body_result"@)),
                ok: Box::new(
                    Code::Block(
                        Box::new(
                            Code::MapErr(Box::new(Code::Name("__rigtest_teardown_result"@))),
                        ),
                    ),
                ),
                name: "__rigtest_body_err"@,
                err: Box::new(
                    Code::Block(
                        Box::new(Code::Fail(Box::new(Code::Name("__rigtest_body_err"@)))),
                    ),
                ),
            },
        ),
    }
}

/// A piece of code in the scope of a fixture.
pub open spec fn scope_code(fixture: Seq<char>, inner: Code) -> Code {
    Code::Block(
        Box::new(
            Code::Let {
                name: fixture,
                ty: None,
                value: Box::new(
                    Code::Try(
                        Box::new(
                            Code::Call { path: setup_call(fixture).0, args: setup_call(fixture).1 },
                        ),
                    ),
                ),
                rest: Box::new(
                    Code::Let {
                        name: "__rigtest_body_result"@,
                        ty: Some(":: core :: result :: Result < () , :: std :: boxed :: Box < dyn :: std :: error :: Error + :: std :: marker :: Send + :: std :: marker :: Sync > >"@),
                        value: Box::new(Code::Block(Box::new(inner))),
                        rest: Box::new(teardown_code(fixture)),
                    },
                ),
            },
        ),
    )
}

/// A piece of code in the scopes of fixtures, each inside the one before.
pub open spec fn nested_code(inner: Code, fixtures: Seq<Seq<char>>) -> Code
    decreases fixtures.len(),
{
    if fixtures.len() == 0 {
        inner
    } else {
        scope_code(fixtures[0], nested_code(inner, fixtures.skip(1)))
    }
}

proof fn lemma_body_source(
    func: Seq<char>,
    args: Seq<Seq<char>>,
    retry_on_error: Option<Seq<char>>,
)
    ensures
        program::source(body_code(func, args, retry_on_error)) == body_text(
            func,
            args,
            retry_on_error,
        ),
{
    let call = Code::Call { path: func, args };
    assert(program::source(call) == call_text(func, args));
    if let Some(pat) = retry_on_error {
        let err = Code::Name("__rigtest_err"@);
        let boxed_name = Code::Name("__rigtest_boxed"@);
        let eligible_name = Code::Name("__rigtest_eligible"@);
        let result_name = Code::Name("__rigtest_result"@);
        assert(program::source(err) == "__rigtest_err"@);
        assert(program::source(boxed_name) == "__rigtest_boxed"@);
        assert(program::source(eligible_name) == "__rigtest_eligible"@);
        assert(program::source(result_name) == "__rigtest_result"@);
        let eligible = Code::Matches { on: Box::new(err), pattern: pat };
        assert(program::source(eligible) == "matches ! (& "@ + "__rigtest_err"@ + " , "@ + pat
            + ")"@);
        let boxed = Code::Boxed(Box::new(err));
        assert(program::source(boxed) == ":: std :: boxed :: Box :: from ("@ + "__rigtest_err"@
            + ")"@);
        let marked = Code::Marked(Box::new(boxed_name));
        assert(program::source(marked)
            == ":: std :: boxed :: Box :: new (:: rigtest :: NotRetryEligible ("@
            + "__rigtest_boxed"@ + ") ,)"@);
        let chosen = Code::If {
            cond: Box::new(eligible_name),
            yes: Box::new(boxed_name),
            no: Box::new(marked),
        };
        assert(program::source(chosen) == "if "@ + "__rigtest_eligible"@ + " { "@
            + "__rigtest_boxed"@ + " } else { "@ + program::source(marked) + " }"@);
        let failed = Code::Fail(Box::new(result_name));
        assert(program::source(failed) == ":: core :: result :: Result :: Err ("@
            + "__rigtest_result"@ + ")"@);
        let third = marking_code();
        assert(program::source(third) == "let "@ + "__rigtest_result"@ + " : "@
            + ":: std :: boxed :: Box < dyn :: std :: error :: Error + :: std :: marker :: Send + :: std :: marker :: Sync , >"@
            + " = "@ + program::source(chosen) + " ; "@ + program::source(failed));
        let second = boxing_code();
        assert(program::source(second) == "let "@ + "__rigtest_boxed"@ + " : "@
            + ":: std :: boxed :: Box < dyn :: std :: error :: Error + :: std :: marker :: Send + :: std :: marker :: Sync , >"@
            + " = "@ + program::source(boxed) + " ; "@ + program::source(third));
        let first = matching_code(pat);
        assert(program::source(first) == "let "@ + "__rigtest_eligible"@ + " = "@ + program::source(
            eligible,
        ) + " ; "@ + program::source(second));
        let block = Code::Block(Box::new(first));
        assert(program::source(block) == "{ "@ + program::source(first) + " }"@);
        assert(program::source(Code::Done) == ":: core :: result :: Result :: Ok (())"@);
        let whole = Code::Match {
            on: Box::new(call),
            ok: Box::new(Code::Done),
            name: "__rigtest_err"@,
            err: Box::new(block),
        };
        assert(body_code(func, args, retry_on_error) == whole);
        assert(program::source(whole) == "match "@ + program::source(call)
            + " { :: core :: result :: Result :: Ok (()) => "@ + (program::source(Code::Done) + " ,"@)
            + " :: core :: result :: Result :: Err ("@ + "__rigtest_err"@ + ") => "@
            + program::source(block) + " }"@);
    }
}

proof fn lemma_teardown_source(fixture: Seq<char>)
    ensures
        " }"@ + " ; "@ + program::source(teardown_code(fixture)) + " }"@ == teardown_text(fixture),
{
    let call = Code::Call { path: teardown_call(fixture).0, args: teardown_call(fixture).1 };
    assert(text::join(fixture_args(), " , "@) == ":: std :: sync :: Arc :: clone (& ctx)"@);
    assert(program::source(call) == fixture + " :: __rigtest_fixture_teardown"@ + " ("@
        + ":: std :: sync :: Arc :: clone (& ctx)"@ + ") . await"@);
    let body_result = Code::Name("__rigtest_body_result"@);
    let teardown_result = Code::Name("__rigtest_teardown_result"@);
    let body_err = Code::Name("__rigtest_body_err"@);
    let boxed = Code::MapErr(Box::new(teardown_result));
    let ok = Code::Block(Box::new(boxed));
    let failed = Code::Fail(Box::new(body_err));
    let err = Code::Block(Box::new(failed));
    let outcome = Code::Match {
        on: Box::new(body_result),
        ok: Box::new(ok),
        name: "__rigtest_body_err"@,
        err: Box::new(err),
    };
    assert(program::source(body_result) == "__rigtest_body_result"@);
    assert(program::source(teardown_result) == "__rigtest_teardown_result"@);
    assert(program::source(body_err) == "__rigtest_body_err"@);
    assert(program::source(boxed) == "__rigtest_teardown_result"@
        + " . map_err (:: std :: boxed :: Box :: < dyn :: std :: error :: Error + :: std :: marker :: Send + :: std :: marker :: Sync > :: from)"@);
    assert(program::source(ok) == "{ "@ + program::source(boxed) + " }"@);
    assert(program::source(failed) == ":: core :: result :: Result :: Err ("@
        + "__rigtest_body_err"@ + ")"@);
    assert(program::source(err) == "{ "@ + program::source(failed) + " }"@);
    assert(program::source(outcome) == "match "@ + "__rigtest_body_result"@
        + " { :: core :: result :: Result :: Ok (()) => "@ + program::source(ok)
        + " :: core :: result :: Result :: Err ("@ + "__rigtest_body_err"@ + ") => "@
        + program::source(err) + " }"@);
    assert(program::source(teardown_code(fixture)) == "let "@ + "__rigtest_teardown_result"@ + " = "@
        + program::source(call) + " ; "@ + program::source(outcome));
}

proof fn lemma_scope_source(fixture: Seq<char>, inner: Code)
    ensures
        program::source(scope_code(fixture, inner)) == scope_text(fixture, program::source(inner)),
{
    lemma_teardown_source(fixture);
    let call = Code::Call { path: setup_call(fixture).0, args: setup_call(fixture).1 };
    assert(text::join(fixture_args(), " , "@) == ":: std :: sync :: Arc :: clone (& ctx)"@);
    assert(program::source(call) == fixture + " :: __rigtest_fixture_setup"@ + " ("@
        + ":: std :: sync :: Arc :: clone (& ctx)"@ + ") . await"@);
    let tried = Code::Try(Box::new(call));
    assert(program::source(tried) == program::source(call) + " ?"@);
    let block = Code::Block(Box::new(inner));
    assert(program::source(block) == "{ "@ + program::source(inner) + " }"@);
    let rest = Code::Let {
        name: "__rigtest_body_result"@,
        ty: Some(":: core :: result :: Result < () , :: std :: boxed :: Box < dyn :: std :: error :: Error + :: std :: marker :: Send + :: std :: marker :: Sync > >"@),
        value: Box::new(block),
        rest: Box::new(teardown_code(fixture)),
    };
    let given = "let "@ + fixture + " = "@;
    let kept = "let "@ + "__rigtest_body_result"@ + " : "@
        + ":: core :: result :: Result < () , :: std :: boxed :: Box < dyn :: std :: error :: Error + :: std :: marker :: Send + :: std :: marker :: Sync > >"@
        + " = "@;
    assert(program::source(rest) == kept + program::source(block) + " ; "@ + program::source(
        teardown_code(fixture),
    ));
    let all = Code::Let {
        name: fixture,
        ty: None,
        value: Box::new(tried),
        rest: Box::new(rest),
    };
    assert(program::source(all) == given + program::source(tried) + " ; "@ + program::source(rest));
    assert(scope_code(fixture, inner) == Code::Block(Box::new(all)));
    lemma_scope_pieces(
        "{ "@,
        given,
        program::source(call),
        " ?"@,
        " ; "@,
        kept,
        "{ "@,
        program::source(inner),
        " }"@,
        program::source(teardown_code(fixture)),
    );
}

proof fn lemma_scope_pieces(
    a: Seq<char>,
    b: Seq<char>,
    c: Seq<char>,
    d: Seq<char>,
    e: Seq<char>,
    f: Seq<char>,
    g: Seq<char>,
    i: Seq<char>,
    h: Seq<char>,
    t: Seq<char>,
)
    ensures
        a + (b + (c + d) + e + (f + (g + i + h) + e + t)) + h == (a + b + c + d + e + f + g) + i + (h
            + e + t + h),
{
    assert(a + (b + (c + d) + e + (f + (g + i + h) + e + t)) + h =~= (a + b + c + d + e + f + g) + i
        + (h + e + t + h));
}

proof fn lemma_nested_source(inner: Code, fixtures: Seq<Seq<char>>)
    ensures
        program::source(nested_code(inner, fixtures)) == nested(program::source(inner), fixtures),
    decreases fixtures.len(),
{
    if fixtures.len() > 0 {
        lemma_nested_source(inner, fixtures.skip(1));
        lemma_scope_source(fixtures[0], nested_code(inner, fixtures.skip(1)));
    }
}

/// Read as a program, the text that runs the test function calls it once, with
/// its arguments. A success stays one. With an error pattern, an error that
/// the pattern matches is returned as it is, and one that it does not match is
/// returned marked as one that is not retried; without a pattern every error
/// is returned as it is.
pub proof fn law_unmatched_errors_are_marked(
    func: Seq<char>,
    args: Seq<Seq<char>>,
    retry_on_error: Option<Seq<char>>,
    names: Map<Seq<char>, Worth>,
    w: World,
)
    ensures
        program::source(body_code(func, args, retry_on_error)) == body_text(
            func,
            args,
            retry_on_error,
        ),
        ({
            let r = program::run(body_code(func, args, retry_on_error), names, w);
            &&& r.calls == seq![(func, args)]
            &&& r.end == Ending::Gives(
                Worth::Result(
                    match (w.error)((func, args)) {
                        None => None,
                        Some(e) => if retry_on_error is None || (w.matches)(retry_on_error->0, e) {
                            Some(e)
                        } else {
                            Some(Fault { what: e.what, marked: true })
                        },
                    },
                ),
            )
        }),
{
    lemma_body_source(func, args, retry_on_error);
    let call = Code::Call { path: func, args };
    let r = program::run(body_code(func, args, retry_on_error), names, w);
    let c = program::run(call, names, w);
    assert(c.calls == seq![(func, args)]);
    assert(c.end == Ending::Gives(Worth::Result((w.error)((func, args)))));
    if let Some(pattern) = retry_on_error {
        match (w.error)((func, args)) {
            None => {
                let d = program::run(Code::Done, names, w);
                assert(d.calls == Seq::<(Seq<char>, Seq<Seq<char>>)>::empty());
                assert(r == program::behind(c, d));
                assert(r.calls =~= seq![(func, args)]);
            },
            Some(e) => {
                let now = names.insert("__rigtest_err"@, Worth::Error(e));
                lemma_matching_run(pattern, e, now, w);
                let block = Code::Block(Box::new(matching_code(pattern)));
                assert(program::run(block, now, w) == program::run(matching_code(pattern), now, w));
                assert(r == program::behind(c, program::run(block, now, w)));
                assert(r.calls =~= seq![(func, args)]);
            },
        }
    }
}

proof fn lemma_matching_run(pattern: Seq<char>, e: Fault, names: Map<Seq<char>, Worth>, w: World)
    requires
        names.contains_key("__rigtest_err"@),
        names["__rigtest_err"@] == Worth::Error(e),
    ensures
        program::run(matching_code(pattern), names, w) == program::at_once(
            Ending::Gives(
                Worth::Result(
                    Some(
                        if (w.matches)(pattern, e) {
                            e
                        } else {
                            Fault { what: e.what, marked: true }
                        },
                    ),
                ),
            ),
        ),
{
    lemma_local_names();
    let err = Code::Name("__rigtest_err"@);
    let eligible = Code::Matches { on: Box::new(err), pattern };
    let yes = (w.matches)(pattern, e);
    assert(program::run(err, names, w) == program::at_once(Ending::Gives(Worth::Error(e))));
    let r = program::run(eligible, names, w);
    assert(r.end == Ending::Gives(Worth::Truth(yes)));
    assert(r.calls == Seq::<(Seq<char>, Seq<Seq<char>>)>::empty());
    let now = names.insert("__rigtest_eligible"@, Worth::Truth(yes));
    lemma_boxing_run(yes, e, now, w);
    let s = program::run(boxing_code(), now, w);
    assert(program::run(matching_code(pattern), names, w) == program::behind(r, s));
    assert(r.calls + s.calls =~= s.calls);
}

proof fn lemma_boxing_run(yes: bool, e: Fault, names: Map<Seq<char>, Worth>, w: World)
    requires
        names.contains_key("__rigtest_err"@),
        names["__rigtest_err"@] == Worth::Error(e),
        names.contains_key("__rigtest_eligible"@),
        names["__rigtest_eligible"@] == Worth::Truth(yes),
    ensures
        program::run(boxing_code(), names, w) == program::at_once(
            Ending::Gives(
                Worth::Result(
                    Some(
                        if yes {
                            e
                        } else {
                            Fault { what: e.what, marked: true }
                        },
                    ),
                ),
            ),
        ),
{
    lemma_local_names();
    let err = Code::Name("__rigtest_err"@);
    let boxed = Code::Boxed(Box::new(err));
    assert(program::run(err, names, w) == program::at_once(Ending::Gives(Worth::Error(e))));
    let r = program::run(boxed, names, w);
    assert(r == program::at_once(Ending::Gives(Worth::Error(e))));
    let now = names.insert("__rigtest_boxed"@, Worth::Error(e));
    lemma_marking_run(yes, e, now, w);
    let s = program::run(marking_code(), now, w);
    assert(program::run(boxing_code(), names, w) == program::behind(r, s));
    assert(r.calls + s.calls =~= s.calls);
}

proof fn lemma_marking_run(yes: bool, e: Fault, names: Map<Seq<char>, Worth>, w: World)
    requires
        names.contains_key("__rigtest_boxed"@),
        names["__rigtest_boxed"@] == Worth::Error(e),
        names.contains_key("__rigtest_eligible"@),
        names["__rigtest_eligible"@] == Worth::Truth(yes),
    ensures
        program::run(marking_code(), names, w) == program::at_once(
            Ending::Gives(
                Worth::Result(
                    Some(
                        if yes {
                            e
                        } else {
                            Fault { what: e.what, marked: true }
                        },
                    ),
                ),
            ),
        ),
{
    let cond = Code::Name("__rigtest_eligible"@);
    let boxed = Code::Name("__rigtest_boxed"@);
    let marked = Code::Marked(Box::new(boxed));
    let chosen = Code::If {
        cond: Box::new(cond),
        yes: Box::new(boxed),
        no: Box::new(marked),
    };
    let none = Seq::<(Seq<char>, Seq<Seq<char>>)>::empty();
    let f = if yes {
        e
    } else {
        Fault { what: e.what, marked: true }
    };
    assert(program::run(cond, names, w) == program::at_once(Ending::Gives(Worth::Truth(yes))));
    assert(program::run(boxed, names, w) == program::at_once(Ending::Gives(Worth::Error(e))));
    assert(program::run(marked, names, w) == program::at_once(
        Ending::Gives(Worth::Error(Fault { what: e.what, marked: true })),
    ));
    let r = program::run(chosen, names, w);
    assert(none + none =~= none);
    assert(r == program::at_once(Ending::Gives(Worth::Error(f))));
    let now = names.insert("__rigtest_result"@, Worth::Error(f));
    let result = Code::Name("__rigtest_result"@);
    let failed = Code::Fail(Box::new(result));
    assert(program::run(result, now, w) == program::at_once(Ending::Gives(Worth::Error(f))));
    assert(program::run(failed, now, w) == program::at_once(
        Ending::Gives(Worth::Result(Some(f))),
    ));
    assert(program::run(marking_code(), names, w) == program::behind(
        r,
        program::run(failed, now, w),
    ));
}

proof fn lemma_local_names()
    ensures
        "__rigtest_err"@ != "__rigtest_eligible"@,
        "__rigtest_err"@ != "__rigtest_boxed"@,
        "__rigtest_eligible"@ != "__rigtest_boxed"@,
        "__rigtest_body_result"@ != "__rigtest_teardown_result"@,
{
    reveal_strlit("__rigtest_err");
    reveal_strlit("__rigtest_eligible");
    reveal_strlit("__rigtest_boxed");
    reveal_strlit("__rigtest_body_result");
    reveal_strlit("__rigtest_teardown_result");
    assert("__rigtest_err"@.len() == 13);
    assert("__rigtest_eligible"@.len() == 18);
    assert("__rigtest_boxed"@.len() == 15);
    assert("__rigtest_body_result"@.len() == 21);
    assert("__rigtest_teardown_result"@.len() == 25);
}

/// What the calls of a test come to, in a world.
pub open spec fn answers_in(
    func: Seq<char>,
    args: Seq<Seq<char>>,
    retry_on_error: Option<Seq<char>>,
    w: World,
) -> Answers {
    Answers {
        setup: |f: Seq<char>| (w.error)(setup_call(f)),
        body: match (w.error)((func, args)) {
            None => None,
            Some(e) => if retry_on_error is None || (w.matches)(retry_on_error->0, e) {
                Some(e)
            } else {
                Some(Fault { what: e.what, marked: true })
            },
        },
        teardown: |f: Seq<char>| (w.error)(teardown_call(f)),
    }
}

/// A call of a test, by its function and what is passed to it.
pub open spec fn call_made(call: Call, func: Seq<char>, args: Seq<Seq<char>>) -> (
    Seq<char>,
    Seq<Seq<char>>,
) {
    match call {
        Call::Setup(f) => setup_call(f),
        Call::Body => (func, args),
        Call::Teardown(f) => teardown_call(f),
    }
}

/// Read as a program, the text of a test with its fixtures makes the calls of
/// its course, in order, and comes to what its course comes to.
pub proof fn law_text_takes_its_course(
    func: Seq<char>,
    args: Seq<Seq<char>>,
    retry_on_error: Option<Seq<char>>,
    fixtures: Seq<Seq<char>>,
    names: Map<Seq<char>, Worth>,
    w: World,
)
    ensures
        ({
            let code = nested_code(body_code(func, args, retry_on_error), fixtures);
            let c = course(fixtures, answers_in(func, args, retry_on_error, w));
            let r = program::run(code, names, w);
            &&& program::source(code) == wrapped(
                body_text(func, args, retry_on_error),
                fixtures,
            )
            &&& r.calls == c.calls.map_values(|x: Call| call_made(x, func, args))
            &&& r.end == if c.left {
                Ending::Left(c.error->0)
            } else {
                Ending::Gives(Worth::Result(c.error))
            }
            &&& c.left ==> c.error is Some
        }),
    decreases fixtures.len(),
{
    let inner = body_code(func, args, retry_on_error);
    lemma_nested_source(inner, fixtures);
    lemma_body_source(func, args, retry_on_error);
    law_scopes_are_nested(body_text(func, args, retry_on_error), fixtures);
    let a = answers_in(func, args, retry_on_error, w);
    let made = |x: Call| call_made(x, func, args);
    if fixtures.len() == 0 {
        law_unmatched_errors_are_marked(func, args, retry_on_error, names, w);
        assert(course(fixtures, a).calls.map_values(made) =~= seq![(func, args)]);
    } else {
        let f = fixtures[0];
        let rest = fixtures.skip(1);
        let code = nested_code(inner, rest);
        let inside = names.insert(f, Worth::Opaque);
        law_text_takes_its_course(func, args, retry_on_error, rest, inside, w);
        let c = course(rest, a);
        lemma_scope_run(f, code, names, w);
        let r = program::run(scope_code(f, code), names, w);
        assert(seq![Call::Setup(f)].map_values(made) =~= seq![setup_call(f)]);
        assert(r.calls =~= course(fixtures, a).calls.map_values(made));
    }
}

proof fn lemma_scope_run(fixture: Seq<char>, inner: Code, names: Map<Seq<char>, Worth>, w: World)
    ensures
        ({
            let r = program::run(scope_code(fixture, inner), names, w);
            let i = program::run(inner, names.insert(fixture, Worth::Opaque), w);
            let setup = seq![setup_call(fixture)];
            &&& (w.error)(setup_call(fixture)) matches Some(e) ==> r.calls == setup && r.end
                == Ending::Left(e)
            &&& (w.error)(setup_call(fixture)) is None ==> {
                &&& i.end matches Ending::Left(e) ==> r.calls == setup + i.calls && r.end
                    == Ending::Left(e)
                &&& i.end matches Ending::Gives(Worth::Result(e)) ==> {
                    &&& r.calls == setup + i.calls + seq![teardown_call(fixture)]
                    &&& r.end == Ending::Gives(
                        Worth::Result(
                            if e is Some {
                                e
                            } else {
                                (w.error)(teardown_call(fixture))
                            },
                        ),
                    )
                }
            }
        }),
{
    let i = program::run(inner, names.insert(fixture, Worth::Opaque), w);
    let setup = seq![setup_call(fixture)];
    let call = Code::Call { path: setup_call(fixture).0, args: setup_call(fixture).1 };
    let tried = Code::Try(Box::new(call));
    let block = Code::Block(Box::new(inner));
    let rest = Code::Let {
        name: "__rigtest_body_result"@,
        ty: Some(":: core :: result :: Result < () , :: std :: boxed :: Box < dyn :: std :: error :: Error + :: std :: marker :: Send + :: std :: marker :: Sync > >"@),
        value: Box::new(block),
        rest: Box::new(teardown_code(fixture)),
    };
    let all = Code::Let {
        name: fixture,
        ty: None,
        value: Box::new(tried),
        rest: Box::new(rest),
    };
    assert(scope_code(fixture, inner) == Code::Block(Box::new(all)));
    let inside = names.insert(fixture, Worth::Opaque);
    let c = program::run(call, names, w);
    assert(c.calls == setup);
    let t = program::run(tried, names, w);
    assert(t.calls == setup);
    let r = program::run(all, names, w);
    assert(program::run(scope_code(fixture, inner), names, w) == r);
    if (w.error)(setup_call(fixture)) is None {
        assert(t.end == Ending::Gives(Worth::Opaque));
        assert(program::run(block, inside, w) == i);
        let s = program::run(rest, inside, w);
        assert(r == program::behind(t, s));
        match i.end {
            Ending::Left(e) => {
                assert(s == i);
            },
            Ending::Gives(v) => {
                let now = inside.insert("__rigtest_body_result"@, v);
                lemma_teardown_run(fixture, now, w);
                assert(s == program::behind(i, program::run(teardown_code(fixture), now, w)));
                assert(v is Result ==> r.calls =~= setup + i.calls + seq![teardown_call(fixture)]);
            },
            _ => {},
        }
    }
}

proof fn lemma_teardown_run(fixture: Seq<char>, names: Map<Seq<char>, Worth>, w: World)
    requires
        names.contains_key("__rigtest_body_result"@),
    ensures
        names["__rigtest_body_result"@] matches Worth::Result(e) ==> {
            let r = program::run(teardown_code(fixture), names, w);
            &&& r.calls == seq![teardown_call(fixture)]
            &&& r.end == Ending::Gives(
                Worth::Result(
                    if e is Some {
                        e
                    } else {
                        (w.error)(teardown_call(fixture))
                    },
                ),
            )
        },
{
    lemma_local_names();
    let call = Code::Call { path: teardown_call(fixture).0, args: teardown_call(fixture).1 };
    let c = program::run(call, names, w);
    let down = Worth::Result((w.error)(teardown_call(fixture)));
    assert(c.calls == seq![teardown_call(fixture)]);
    assert(c.end == Ending::Gives(down));
    let now = names.insert("__rigtest_teardown_result"@, down);
    let body_result = Code::Name("__rigtest_body_result"@);
    let teardown_result = Code::Name("__rigtest_teardown_result"@);
    let body_err = Code::Name("__rigtest_body_err"@);
    let boxed = Code::MapErr(Box::new(teardown_result));
    let ok = Code::Block(Box::new(boxed));
    let failed = Code::Fail(Box::new(body_err));
    let err = Code::Block(Box::new(failed));
    let outcome = Code::Match {
        on: Box::new(body_result),
        ok: Box::new(ok),
        name: "__rigtest_body_err"@,
        err: Box::new(err),
    };
    let none = Seq::<(Seq<char>, Seq<Seq<char>>)>::empty();
    assert(none + none =~= none);
    assert(c.calls + none =~= c.calls);
    if let Worth::Result(e) = names["__rigtest_body_result"@] {
        let m = program::run(outcome, now, w);
        let b = program::run(body_result, now, w);
        assert(b == program::at_once(Ending::Gives(Worth::Result(e))));
        match e {
            None => {
                assert(program::run(teardown_result, now, w) == program::at_once(
                    Ending::Gives(down),
                ));
                assert(program::run(boxed, now, w) == program::at_once(Ending::Gives(down)));
                assert(program::run(ok, now, w) == program::at_once(Ending::Gives(down)));
                assert(m == program::behind(b, program::run(ok, now, w)));
                assert(m == program::at_once(Ending::Gives(down)));
            },
            Some(f) => {
                let held = now.insert("__rigtest_body_err"@, Worth::Error(f));
                assert(program::run(body_err, held, w) == program::at_once(
                    Ending::Gives(Worth::Error(f)),
                ));
                assert(program::run(failed, held, w) == program::at_once(
                    Ending::Gives(Worth::Result(Some(f))),
                ));
                assert(program::run(err, held, w) == program::run(failed, held, w));
                assert(m == program::behind(b, program::run(err, held, w)));
                assert(m == program::at_once(Ending::Gives(Worth::Result(Some(f)))));
            },
        }
        assert(program::run(teardown_code(fixture), names, w) == program::behind(c, m));
    }
}

/// What is passed for a parameter: the value or the fixture that it stands
/// for, in order; and the context, of which the test gets a copy exactly where
/// fixtures need it afterwards.
pub proof fn law_what_is_passed(args: Seq<plan::ArgSourceV>, i: int)
    requires
        0 <= i < args.len(),
    ensures
        arg_texts(args, true).len() == args.len(),
        arg_texts(args, false).len() == args.len(),
        args[i] is Ctx ==> arg_texts(args, false)[i] == "ctx"@,
        args[i] is Ctx ==> arg_texts(args, true)[i] == fixture_args()[0],
        !(args[i] is Ctx) ==> arg_texts(args, true)[i] == arg_texts(args, false)[i],
        args[i] matches plan::ArgSourceV::Case(e) ==> arg_texts(args, true)[i] == e,
        args[i] matches plan::ArgSourceV::Values(e) ==> arg_texts(args, true)[i] == e,
        args[i] matches plan::ArgSourceV::Fixture(f) ==> arg_texts(args, true)[i] == f,
{
}

/// What is passed to the registration of a test for each of the properties that
/// a registered test has, in the order in which it takes them.
pub open spec fn registered_flags(spec: testcase::TestcaseSpecV) -> Seq<Seq<char>> {
    seq![
        bool_text(spec.serial is Exclusive),
        option_text(group_of(spec.serial)),
        option_text(spec.timeout),
        bool_text(spec.no_timeout),
        retries_text(spec.retries),
        bool_text(spec.retry_on_error is Some),
        tags_text(spec.tags),
    ]
}

/// What a test's attribute says reaches its registration in the order in which
/// a registered test takes it: that it runs alone, its group, its timeout,
/// that it has none, its retries, that it declares an error pattern, and its
/// tags; and each says what the attribute says.
pub proof fn law_what_is_registered(spec: testcase::TestcaseSpecV)
    ensures
        flags_text(spec) == text::join(registered_flags(spec), " , "@),
        registered_flags(spec)[0] == "true"@ <==> spec.serial is Exclusive,
        registered_flags(spec)[1] == "None"@ <==> !(spec.serial is Group),
        spec.serial matches testcase::SerialModeV::Group { text, value } ==> registered_flags(
            spec,
        )[1] == "Some ("@ + text + ")"@,
        spec.timeout matches Some(t) ==> registered_flags(spec)[2] == "Some ("@ + t + ")"@,
        spec.timeout is None ==> registered_flags(spec)[2] == "None"@,
        registered_flags(spec)[3] == "true"@ <==> spec.no_timeout,
        spec.retries matches Some(n) ==> registered_flags(spec)[4] == n,
        spec.retries is None ==> registered_flags(spec)[4] == "0u32"@,
        registered_flags(spec)[5] == "true"@ <==> spec.retry_on_error is Some,
        forall|i: int|
            0 <= i < spec.tags.len() ==> text::contains(
                registered_flags(spec)[6],
                (#[trigger] spec.tags[i]).0,
            ),
{
    reveal_strlit("true");
    reveal_strlit("false");
    reveal_strlit("None");
    reveal_strlit("Some (");
    assert("true"@.len() == 4 && "false"@.len() == 5);
    assert("None"@[0] == 'N' && "Some ("@[0] == 'S');
    let flags = registered_flags(spec);
    let sep = " , "@;
    if let testcase::SerialModeV::Group { text, value } = spec.serial {
        assert(("Some ("@ + text + ")"@)[0] == 'S');
    }
    lemma_join_seven(flags, sep);
    let parts = spec.tags.map_values(|t: (Seq<char>, Seq<char>)| t.0);
    assert forall|i: int| 0 <= i < spec.tags.len() implies text::contains(
        flags[6],
        (#[trigger] spec.tags[i]).0,
    ) by {
        text::law_parts_stand_in_the_join(parts, " , "@, i);
        text::lemma_contains_within(
            "& ["@,
            text::join(parts, " , "@),
            "] as & 'static [& 'static str]"@,
            parts[i],
        );
    }
}

proof fn lemma_join_seven(p: Seq<Seq<char>>, sep: Seq<char>)
    requires
        p.len() == 7,
    ensures
        text::join(p, sep) == p[0] + sep + p[1] + sep + p[2] + sep + p[3] + sep + p[4] + sep + p[5]
            + sep + p[6],
{
    assert(p.take(7) =~= p);
    assert(p.take(7).drop_last() =~= p.take(6));
    assert(p.take(6).drop_last() =~= p.take(5));
    assert(p.take(5).drop_last() =~= p.take(4));
    assert(p.take(4).drop_last() =~= p.take(3));
    assert(p.take(3).drop_last() =~= p.take(2));
    assert(p.take(2).drop_last() =~= p.take(1));
    assert(text::join(p.take(1), sep) == p[0]);
    assert(text::join(p.take(2), sep) == text::join(p.take(1), sep) + sep + p[1]);
    assert(text::join(p.take(3), sep) == text::join(p.take(2), sep) + sep + p[2]);
    assert(text::join(p.take(4), sep) == text::join(p.take(3), sep) + sep + p[3]);
    assert(text::join(p.take(5), sep) == text::join(p.take(4), sep) + sep + p[4]);
    assert(text::join(p.take(6), sep) == text::join(p.take(5), sep) + sep + p[5]);
    assert(text::join(p.take(7), sep) == text::join(p.take(6), sep) + sep + p[6]);
}

/// A test is registered under its own name, with what its attribute says, and
/// with the code that runs it as its function.
pub proof fn law_registration_of_a_case(
    func: Seq<char>,
    spec: testcase::TestcaseSpecV,
    fixtures: Seq<Seq<char>>,
    case: plan::GeneratedCaseV,
)
    ensures
        ({
            let args = arg_texts(case.args, fixtures.len() > 0);
            let code = nested_code(body_code(func, args, spec.retry_on_error), fixtures);
            let text = registration_text(func, spec, fixtures, case);
            exists|head: Seq<char>|
                text == #[trigger] (head + case.static_ident
                    + " : :: rigtest :: registry :: TestCase = :: rigtest :: registry :: TestCase :: new ("@)
                    + syntax::string_literal(case.name) + " , module_path ! () , file ! () , "@
                    + text::join(registered_flags(spec), " , "@)
                    + " , | ctx | :: std :: boxed :: Box :: pin (async move { "@ + program::source(
                    code,
                ) + " }) ,) ;"@
        }),
{
    let args = arg_texts(case.args, fixtures.len() > 0);
    let inner = body_code(func, args, spec.retry_on_error);
    lemma_nested_source(inner, fixtures);
    lemma_body_source(func, args, spec.retry_on_error);
    law_scopes_are_nested(body_text(func, args, spec.retry_on_error), fixtures);
    law_what_is_registered(spec);
    let head =
        "# [:: rigtest :: __linkme :: distributed_slice (:: rigtest :: registry :: RIG_TEST_CASES)] # [linkme (crate = :: rigtest :: __linkme)] static "@;
    assert(registration_text(func, spec, fixtures, case) == (head + case.static_ident
        + " : :: rigtest :: registry :: TestCase = :: rigtest :: registry :: TestCase :: new ("@)
        + syntax::string_literal(case.name) + " , module_path ! () , file ! () , "@ + text::join(
        registered_flags(spec),
        " , "@,
    ) + " , | ctx | :: std :: boxed :: Box :: pin (async move { "@ + program::source(
        nested_code(inner, fixtures),
    ) + " }) ,) ;"@);
}

/// The cases of a function are registered one behind the other, and each as if
/// it were alone.
pub proof fn law_cases_are_registered_one_by_one(
    func: Seq<char>,
    spec: testcase::TestcaseSpecV,
    fixtures: Seq<Seq<char>>,
    a: Seq<plan::GeneratedCaseV>,
    b: Seq<plan::GeneratedCaseV>,
    case: plan::GeneratedCaseV,
)
    ensures
        registrations_text(func, spec, fixtures, a + b) == registrations_text(
            func,
            spec,
            fixtures,
            a,
        ) + registrations_text(func, spec, fixtures, b),
        registrations_text(func, spec, fixtures, seq![case]) == registration_text(
            func,
            spec,
            fixtures,
            case,
        ) + " "@,
    decreases b.len(),
{
    let one = seq![case];
    assert(one.drop_last() =~= seq![]);
    assert(one.last() == case);
    assert(registrations_text(func, spec, fixtures, one.drop_last()) == Seq::<char>::empty());
    lemma_empty(registration_text(func, spec, fixtures, case));
    if b.len() == 0 {
        assert(a + b =~= a);
        lemma_empty(registrations_text(func, spec, fixtures, a));
    } else {
        law_cases_are_registered_one_by_one(func, spec, fixtures, a, b.drop_last(), case);
        assert((a + b).drop_last() =~= a + b.drop_last());
        assert((a + b).last() == b.last());
        lemma_regroup_three(
            registrations_text(func, spec, fixtures, a),
            registrations_text(func, spec, fixtures, b.drop_last()),
            registration_text(func, spec, fixtures, b.last()),
            " "@,
        );
    }
}

proof fn lemma_regroup_three(a: Seq<char>, b: Seq<char>, c: Seq<char>, d: Seq<char>)
    ensures
        (a + b) + c + d == a + (b + c + d),
{
    assert((a + b) + c + d =~= a + (b + c + d));
}

proof fn lemma_cases_are_planned(
    kinds: Seq<cases::ParamKindV>,
    rows: Seq<cases::CaseRowV>,
    name: Seq<char>,
)
    ensures
        plan::planned(cases_of(kinds, rows, name), kinds, rows, name),
{
    if plan::has_dimensions(kinds, rows) {
        let t = plan::combinations(plan::sizes_of(kinds)) as int;
        let r = plan::row_count(rows) as int;
        assert(r * t >= 0) by (nonlinear_arith)
            requires
                r >= 0,
                t >= 0,
        ;
        let generated = cases_of(kinds, rows, name);
        assert forall|i: int, j: int| 0 <= i < r && 0 <= j < t implies #[trigger] generated[i * t
            + j] == plan::case_at(kinds, rows, name, i, j) by {
            assert(0 <= i * t + j < r * t) by (nonlinear_arith)
                requires
                    0 <= i < r,
                    0 <= j < t,
            ;
            lemma_fundamental_div_mod_converse(i * t + j, t, i, j);
        }
    }
}

/// A function has as many cases as there are rows times combinations of listed
/// values, one where it has neither, and no two of them have the same name.
pub proof fn law_cases_of_a_function(
    kinds: Seq<cases::ParamKindV>,
    rows: Seq<cases::CaseRowV>,
    name: Seq<char>,
)
    ensures
        rows.len() > 0 ==> cases_of(kinds, rows, name).len() == rows.len() * plan::combinations(
            plan::sizes_of(kinds),
        ),
        rows.len() == 0 && plan::sizes_of(kinds).len() > 0 ==> cases_of(kinds, rows, name).len()
            == plan::combinations(plan::sizes_of(kinds)),
        rows.len() == 0 && plan::sizes_of(kinds).len() == 0 ==> cases_of(kinds, rows, name).len()
            == 1,
        forall|a: int, b: int|
            0 <= a < b < cases_of(kinds, rows, name).len() ==> (#[trigger] cases_of(
                kinds,
                rows,
                name,
            )[a]).name != (#[trigger] cases_of(kinds, rows, name)[b]).name,
{
    lemma_cases_are_planned(kinds, rows, name);
    let generated = cases_of(kinds, rows, name);
    if plan::has_dimensions(kinds, rows) {
        let t = plan::combinations(plan::sizes_of(kinds)) as int;
        assert(generated.len() == plan::row_count(rows) * t);
        assert(rows.len() == 0 ==> plan::row_count(rows) * t == t) by (nonlinear_arith)
            requires
                rows.len() == 0 ==> plan::row_count(rows) == 1,
        ;
    }
    assert forall|a: int, b: int| 0 <= a < b < generated.len() implies (#[trigger] generated[a]).name
        != (#[trigger] generated[b]).name by {
        if generated[a].name == generated[b].name {
            plan::law_case_names_distinct(generated, kinds, rows, name, a, b);
        }
    }
}

/// A function is expanded exactly where nothing is wrong with its rows, with
/// its parameters, with how the rows fit the parameters, or with what it
/// returns where its errors are matched. Its other attributes and those of its
/// parameters are kept.
pub proof fn law_when_a_function_is_expanded(
    spec: testcase::TestcaseSpecV,
    f: function::FunctionV,
)
    ensures
        ({
            let rows = cases::rows_of(f.attrs);
            let kinds = cases::kinds_of(f.params);
            &&& expansion_of(spec, f) is Ok <==> rows is Ok && kinds is Ok && cases::shape_error(
                rows->Ok_0.0,
                kinds->Ok_0.0,
            ) is None && (spec.retry_on_error is Some ==> cases::retry_output_error(f.output)
                is None)
            &&& expansion_of(spec, f) matches Ok(e) ==> e.kept_attrs == rows->Ok_0.1
                && e.kept_param_attrs == kinds->Ok_0.1
        }),
{
}

proof fn lemma_case_is_registered(
    func: Seq<char>,
    spec: testcase::TestcaseSpecV,
    fixtures: Seq<Seq<char>>,
    generated: Seq<plan::GeneratedCaseV>,
    i: int,
)
    requires
        0 <= i < generated.len(),
    ensures
        text::contains(
            registrations_text(func, spec, fixtures, generated),
            registration_text(func, spec, fixtures, generated[i]),
        ),
{
    let one = generated[i];
    let before = generated.take(i);
    let behind = generated.skip(i + 1);
    assert(generated =~= before + (seq![one] + behind));
    law_cases_are_registered_one_by_one(func, spec, fixtures, before, seq![one] + behind, one);
    law_cases_are_registered_one_by_one(func, spec, fixtures, seq![one], behind, one);
    let a = registrations_text(func, spec, fixtures, before);
    let b = registration_text(func, spec, fixtures, one);
    let c = registrations_text(func, spec, fixtures, behind);
    lemma_regroup_around(a, b, " "@, c);
    text::lemma_stands(a, b, " "@ + c);
}

proof fn lemma_regroup_around(a: Seq<char>, b: Seq<char>, d: Seq<char>, c: Seq<char>)
    ensures
        a + (b + d + c) == a + b + (d + c),
{
    assert(a + (b + d + c) =~= a + b + (d + c));
}

/// Every case of a function is registered where the function is expanded: under
/// its own name, with what the attribute says, and with every fixture that the
/// function takes.
pub proof fn law_every_case_is_registered(
    spec: testcase::TestcaseSpecV,
    f: function::FunctionV,
    i: int,
)
    requires
        expansion_of(spec, f) is Ok,
        0 <= i < cases_of(
            cases::kinds_of(f.params)->Ok_0.0,
            cases::rows_of(f.attrs)->Ok_0.0,
            f.name,
        ).len(),
    ensures
        ({
            let kinds = cases::kinds_of(f.params)->Ok_0.0;
            let rows = cases::rows_of(f.attrs)->Ok_0.0;
            text::contains(
                expansion_of(spec, f)->Ok_0.registrations,
                registration_text(
                    f.name,
                    spec,
                    plan::fixtures_of(kinds),
                    cases_of(kinds, rows, f.name)[i],
                ),
            )
        }),
{
    let kinds = cases::kinds_of(f.params)->Ok_0.0;
    let rows = cases::rows_of(f.attrs)->Ok_0.0;
    lemma_case_is_registered(
        f.name,
        spec,
        plan::fixtures_of(kinds),
        cases_of(kinds, rows, f.name),
        i,
    );
}

/// `#[testcase]` is expanded exactly where its item can be read, its arguments
/// say something that can be used, and the function can be expanded so.
pub proof fn law_testcase_of_an_item(attr: Seq<char>, item: Seq<char>)
    ensures
        expansion_in(attr, item) is Ok <==> {
            &&& function::function_in(item) is Ok
            &&& testcase::spec_of_args(testcase::args_in(attr)) is Ok
            &&& expansion_of(
                testcase::spec_of_args(testcase::args_in(attr))->Ok_0,
                function::function_in(item)->Ok_0,
            ) is Ok
        },
        function::function_in(item) is Err ==> expansion_in(attr, item)->Err_0.at
            == function::Place::UnreadItem,
{
}

} // verus!
