//! The attribute macros other than `#[testcase]`: `#[fixture]`,
//! `#[preflight]`, `#[global_setup]`, `#[global_teardown]` and
//! `#[rigtest::main]`.

use crate::function;
use crate::function::{Diagnostic, Function, Param, Place};
use crate::program;
use crate::program::{Code, Ending, World, Worth};
use crate::syntax;
use crate::syntax::Meta;
use crate::text;
use crate::types;
use vstd::prelude::*;
use vstd::string::*;

verus! {

/// Whether a text or a diagnostic is the one that is meant.
pub open spec fn same_text(
    r: Result<String, Diagnostic>,
    want: Result<Seq<char>, function::DiagnosticV>,
) -> bool {
    match r {
        Ok(s) => want == Ok::<Seq<char>, function::DiagnosticV>(s@),
        Err(d) => want == Err::<Seq<char>, function::DiagnosticV>(d.deep_view()),
    }
}

// ── #[fixture] ──────────────────────────────────────────────────────────────

/// The teardown that the arguments `metas` of `#[fixture]` name, the last one
/// counting; or what is wrong with the first argument that is another one.
pub open spec fn teardown_of(metas: Seq<syntax::MetaV>) -> Result<
    Option<Seq<char>>,
    function::DiagnosticV,
>
    decreases metas.len(),
{
    if metas.len() == 0 {
        Ok(None)
    } else {
        match teardown_of(metas.drop_last()) {
            Err(d) => Err(d),
            Ok(before) => match metas.last() {
                syntax::MetaV::Assign { name, value } if name == "teardown"@ => Ok(Some(value)),
                _ => Err(
                    function::diag(
                        Place::Argument((metas.len() - 1) as usize),
                        "unknown argument for #[fixture]; the only supported argument is `teardown = <path to an async fn(Arc<TestContext>) -> Result<(), E>>`"@,
                    ),
                ),
            },
        }
    }
}

proof fn lemma_teardown_of_error(metas: Seq<syntax::MetaV>, n: int)
    requires
        0 <= n <= metas.len(),
        teardown_of(metas.take(n)) is Err,
    ensures
        teardown_of(metas) == teardown_of(metas.take(n)),
    decreases metas.len(),
{
    if n == metas.len() {
        assert(metas.take(n) =~= metas);
    } else {
        assert(metas.drop_last().take(n) =~= metas.take(n));
        lemma_teardown_of_error(metas.drop_last(), n);
    }
}

/// The teardown that the arguments `metas` of `#[fixture]` name.
pub fn fixture_teardown(metas: &Vec<Meta>) -> (r: Result<Option<String>, Diagnostic>)
    ensures
        match r {
            Ok(t) => teardown_of(metas.deep_view()) == Ok::<
                Option<Seq<char>>,
                function::DiagnosticV,
            >(t.deep_view()),
            Err(d) => teardown_of(metas.deep_view()) == Err::<
                Option<Seq<char>>,
                function::DiagnosticV,
            >(d.deep_view()),
        },
{
    let ghost all = metas.deep_view();
    let mut teardown: Option<String> = None;
    let mut i: usize = 0;
    while i < metas.len()
        invariant
            i <= metas@.len(),
            all == metas.deep_view(),
            teardown_of(all.take(i as int)) == Ok::<Option<Seq<char>>, function::DiagnosticV>(
                teardown.deep_view(),
            ),
        decreases metas@.len() - i,
    {
        proof {
            assert(all.take(i + 1).drop_last() =~= all.take(i as int));
            assert(all.take(i + 1).last() == metas@[i as int].deep_view());
        }
        let mut known = false;
        if let Meta::Assign { name, value } = &metas[i] {
            if text::same(name, "teardown") {
                teardown = Some(value.clone());
                known = true;
            }
        }
        if !known {
            proof {
                lemma_teardown_of_error(all, i + 1);
            }
            return Err(
                function::diagnostic(
                    Place::Argument(i),
                    "unknown argument for #[fixture]; the only supported argument is `teardown = <path to an async fn(Arc<TestContext>) -> Result<(), E>>`",
                ),
            );
        }
        i += 1;
    }
    assert(all.take(i as int) =~= all);
    Ok(teardown)
}

/// The teardown that `#[fixture(attr)]` names, or what is wrong with it.
pub open spec fn teardown_in(attr: Seq<char>) -> Result<Option<Seq<char>>, function::DiagnosticV> {
    match syntax::metas_in(attr) {
        Ok(metas) => teardown_of(metas),
        Err(e) => Err(function::diag(Place::UnreadArguments, e)),
    }
}

/// The teardown that `#[fixture(attr)]` names.
pub fn parse_fixture_teardown(attr: &str) -> (r: Result<Option<String>, Diagnostic>)
    ensures
        match r {
            Ok(t) => teardown_in(attr@) == Ok::<Option<Seq<char>>, function::DiagnosticV>(
                t.deep_view(),
            ),
            Err(d) => teardown_in(attr@) == Err::<Option<Seq<char>>, function::DiagnosticV>(
                d.deep_view(),
            ),
        },
{
    match syntax::read_metas(attr) {
        Ok(metas) => fixture_teardown(&metas),
        Err(e) => Err(Diagnostic { at: Place::UnreadArguments, message: e }),
    }
}

/// The parameter of a fixture's setup: the fixture's own, or an ignored one
/// where it has none; or what is wrong with the fixture's parameters.
pub open spec fn setup_param(params: Seq<function::ParamV>, inputs: Seq<Seq<char>>) -> Result<
    Seq<char>,
    function::DiagnosticV,
> {
    if params.len() == 0 {
        Ok("_ctx : :: std :: sync :: Arc < :: rigtest :: TestContext >"@)
    } else if params.len() == 1 {
        match params[0] {
            function::ParamV::Receiver => Err(
                function::diag(
                    Place::Param(0),
                    "#[fixture] functions cannot take a `self` parameter. Expected:\n  async fn name(ctx: Arc<TestContext>) -> Result<T, E>"@,
                ),
            ),
            function::ParamV::Typed { attrs, ident, ty, is_context } => if is_context {
                Ok(inputs[0])
            } else {
                Err(
                    function::diag(
                        Place::ParamType(0),
                        "#[fixture] parameter must be `Arc<TestContext>`. Expected one of:\n  async fn name() -> Result<T, E>\n  async fn name(ctx: Arc<TestContext>) -> Result<T, E>"@,
                    ),
                )
            },
        }
    } else {
        Err(
            function::diag(
                Place::Params,
                "#[fixture] functions accept at most one parameter. Expected one of:\n  async fn name() -> Result<T, E>\n  async fn name(ctx: Arc<TestContext>) -> Result<T, E>"@,
            ),
        )
    }
}

fn read_setup_param(params: &Vec<Param>, inputs: &Vec<String>) -> (r: Result<String, Diagnostic>)
    requires
        params@.len() == 1 ==> inputs@.len() > 0,
    ensures
        same_text(r, setup_param(params.deep_view(), inputs.deep_view())),
{
    if params.len() == 0 {
        return Ok("_ctx : :: std :: sync :: Arc < :: rigtest :: TestContext >".to_owned());
    }
    if params.len() > 1 {
        return Err(
            function::diagnostic(
                Place::Params,
                "#[fixture] functions accept at most one parameter. Expected one of:\n  async fn name() -> Result<T, E>\n  async fn name(ctx: Arc<TestContext>) -> Result<T, E>",
            ),
        );
    }
    assert(params.deep_view()[0] == params@[0].deep_view());
    match &params[0] {
        Param::Receiver => Err(
            function::diagnostic(
                Place::Param(0),
                "#[fixture] functions cannot take a `self` parameter. Expected:\n  async fn name(ctx: Arc<TestContext>) -> Result<T, E>",
            ),
        ),
        Param::Typed { attrs, ident, ty, is_context } => if *is_context {
            Ok(inputs[0].clone())
        } else {
            Err(
                function::diagnostic(
                    Place::ParamType(0),
                    "#[fixture] parameter must be `Arc<TestContext>`. Expected one of:\n  async fn name() -> Result<T, E>\n  async fn name(ctx: Arc<TestContext>) -> Result<T, E>",
                ),
            )
        },
    }
}

/// The teardown function of a fixture: it calls the one that the fixture
/// names, or does nothing.
pub open spec fn teardown_fn_text(vis: Seq<char>, err: Seq<char>, teardown: Option<Seq<char>>) -> Seq<
    char,
> {
    match teardown {
        Some(path) => vis
            + " async fn __rigtest_fixture_teardown (ctx : :: std :: sync :: Arc < :: rigtest :: TestContext > ,) -> :: core :: result :: Result < () , "@
            + err + " > { "@ + path + " (ctx) . await }"@,
        None => "# [allow (clippy :: unused_async)] "@ + vis
            + " async fn __rigtest_fixture_teardown (_ctx : :: std :: sync :: Arc < :: rigtest :: TestContext > ,) -> :: core :: result :: Result < () , "@
            + err + " > { :: core :: result :: Result :: Ok (()) }"@,
    }
}

fn teardown_fn(vis: &str, err: &str, teardown: &Option<String>) -> (r: String)
    ensures
        r@ == teardown_fn_text(vis@, err@, teardown.deep_view()),
{
    match teardown {
        Some(path) => {
            let mut r = vis.to_owned();
            r.append(
                " async fn __rigtest_fixture_teardown (ctx : :: std :: sync :: Arc < :: rigtest :: TestContext > ,) -> :: core :: result :: Result < () , ",
            );
            r.append(err);
            r.append(" > { ");
            r.append(path);
            r.append(" (ctx) . await }");
            r
        },
        None => {
            let mut r = "# [allow (clippy :: unused_async)] ".to_owned();
            r.append(vis);
            r.append(
                " async fn __rigtest_fixture_teardown (_ctx : :: std :: sync :: Arc < :: rigtest :: TestContext > ,) -> :: core :: result :: Result < () , ",
            );
            r.append(err);
            r.append(" > { :: core :: result :: Result :: Ok (()) }");
            r
        },
    }
}

/// The text of a fixture: a type of the fixture's name, with a setup and a
/// teardown.
pub open spec fn fixture_text(
    f: function::FunctionV,
    param: Seq<char>,
    output: Seq<char>,
    teardown_fn: Seq<char>,
) -> Seq<char> {
    "# [allow (non_camel_case_types)] # [doc (hidden)] "@ + f.vis + " struct "@ + f.name
        + " { } # [allow (non_camel_case_types)] impl "@ + f.name
        + " { # [allow (clippy :: unused_async)] "@ + f.vis
        + " async fn __rigtest_fixture_setup ("@ + param + ") -> "@ + output + " "@ + f.block + " "@
        + teardown_fn + " }"@
}

/// What is wrong with a fixture that returns no `Result`.
pub open spec fn no_result_text() -> Seq<char> {
    "#[fixture] functions must return `Result<T, E>` — `T` is the value injected into tests and `E` is the error type"@
}

/// The expansion of the fixture `f`, whose return type's error type is `err`
/// and whose attribute names the teardown `teardown`; or what is wrong with
/// it.
pub open spec fn fixture_of(
    f: function::FunctionV,
    err: Option<Seq<char>>,
    teardown: Option<Seq<char>>,
) -> Result<Seq<char>, function::DiagnosticV> {
    if !f.is_async {
        Err(
            function::diag(
                Place::Signature,
                "#[fixture] functions must be `async`. Expected one of:\n  async fn name() -> Result<T, E>\n  async fn name(ctx: Arc<TestContext>) -> Result<T, E>"@,
            ),
        )
    } else if f.output is None {
        Err(function::diag(Place::Signature, no_result_text()))
    } else if err is None {
        Err(function::diag(Place::Output, no_result_text()))
    } else {
        match setup_param(f.params, f.inputs) {
            Err(d) => Err(d),
            Ok(param) => Ok(
                fixture_text(f, param, f.output->0, teardown_fn_text(f.vis, err->0, teardown)),
            ),
        }
    }
}

/// Expands the fixture `f`, whose return type's error type is `err` and whose
/// attribute names the teardown `teardown`.
pub fn expand_fixture_fn(f: &Function, err: &Option<String>, teardown: &Option<String>) -> (r: Result<
    String,
    Diagnostic,
>)
    requires
        f.params@.len() == f.inputs@.len(),
    ensures
        same_text(r, fixture_of(f.deep_view(), err.deep_view(), teardown.deep_view())),
{
    if !f.is_async {
        return Err(
            function::diagnostic(
                Place::Signature,
                "#[fixture] functions must be `async`. Expected one of:\n  async fn name() -> Result<T, E>\n  async fn name(ctx: Arc<TestContext>) -> Result<T, E>",
            ),
        );
    }
    let output = match &f.output {
        Some(ty) => ty,
        None => return Err(
            function::diagnostic(
                Place::Signature,
                "#[fixture] functions must return `Result<T, E>` — `T` is the value injected into tests and `E` is the error type",
            ),
        ),
    };
    let err = match err {
        Some(ty) => ty,
        None => return Err(
            function::diagnostic(
                Place::Output,
                "#[fixture] functions must return `Result<T, E>` — `T` is the value injected into tests and `E` is the error type",
            ),
        ),
    };
    let param = match read_setup_param(&f.params, &f.inputs) {
        Ok(p) => p,
        Err(d) => return Err(d),
    };
    let mut r = "# [allow (non_camel_case_types)] # [doc (hidden)] ".to_owned();
    r.append(&f.vis);
    r.append(" struct ");
    r.append(&f.name);
    r.append(" { } # [allow (non_camel_case_types)] impl ");
    r.append(&f.name);
    r.append(" { # [allow (clippy :: unused_async)] ");
    r.append(&f.vis);
    r.append(" async fn __rigtest_fixture_setup (");
    r.append(&param);
    r.append(") -> ");
    r.append(output);
    r.append(" ");
    r.append(&f.block);
    r.append(" ");
    r.append(&teardown_fn(&f.vis, err, teardown));
    r.append(" }");
    Ok(r)
}

/// The error type of a fixture's return type, where it is a `Result` that
/// names both of its types.
pub open spec fn err_of(output: Option<Seq<char>>) -> Option<Seq<char>> {
    match output {
        Some(ty) => match types::types_in(ty, "Result"@) {
            Some(args) => if args.len() > 1 {
                Some(args[1])
            } else {
                None
            },
            None => None,
        },
        None => None,
    }
}

fn read_err_of(output: &Option<String>) -> (r: Option<String>)
    ensures
        r.deep_view() == err_of(output.deep_view()),
{
    let args = match output {
        Some(ty) => match types::read_types_in(ty, "Result") {
            Some(args) => args,
            None => return None,
        },
        None => return None,
    };
    if args.len() > 1 {
        assert(args.deep_view()[1] == args@[1]@);
        Some(args[1].clone())
    } else {
        None
    }
}

/// The expansion of `#[fixture(attr)]` on `item`, or what is wrong with it.
pub open spec fn fixture_in(attr: Seq<char>, item: Seq<char>) -> Result<
    Seq<char>,
    function::DiagnosticV,
> {
    match function::function_in(item) {
        Err(e) => Err(function::diag(Place::UnreadItem, e)),
        Ok(f) => match teardown_in(attr) {
            Err(d) => Err(d),
            Ok(teardown) => fixture_of(f, err_of(f.output), teardown),
        },
    }
}

/// Expands `#[fixture(attr)]` on `item`.
pub fn fixture(attr: &str, item: &str) -> (r: Result<String, Diagnostic>)
    ensures
        same_text(r, fixture_in(attr@, item@)),
{
    let f = match function::read_function(item) {
        Ok(f) => f,
        Err(d) => return Err(d),
    };
    proof {
        function::lemma_params_and_inputs(item@);
    }
    let teardown = match parse_fixture_teardown(attr) {
        Ok(t) => t,
        Err(d) => return Err(d),
    };
    let err = read_err_of(&f.output);
    expand_fixture_fn(&f, &err, &teardown)
}

// ── #[preflight] ────────────────────────────────────────────────────────────

/// Whether a readiness function takes the profile's name, given whether each
/// parameter is `self` and whether it is `&str`; or what is wrong with its
/// parameters.
pub open spec fn takes_profile(params: Seq<function::ParamV>, is_str: bool) -> Result<
    bool,
    function::DiagnosticV,
> {
    if params.len() == 0 {
        Ok(false)
    } else if params.len() > 1 {
        Err(
            function::diag(
                Place::Params,
                "#[preflight] functions accept at most one parameter. Expected one of:\n  fn name() -> Preflight\n  fn name(env: &str) -> Preflight"@,
            ),
        )
    } else if params[0] is Receiver {
        Err(
            function::diag(
                Place::Param(0),
                "#[preflight] functions must not have a `self` parameter. Expected:\n  fn name(env: &str) -> Preflight"@,
            ),
        )
    } else if is_str {
        Ok(true)
    } else {
        Err(
            function::diag(
                Place::ParamType(0),
                "#[preflight] parameter must be `&str` exactly (not `String`, `&String`, `&mut str`, or `Cow<'_, str>`). Expected one of:\n  fn name() -> Preflight\n  fn name(env: &str) -> Preflight"@,
            ),
        )
    }
}

/// Whether a readiness function takes the profile's name.
pub fn validate_preflight_params(params: &Vec<Param>, is_str: bool) -> (r: Result<bool, Diagnostic>)
    ensures
        match r {
            Ok(b) => takes_profile(params.deep_view(), is_str) == Ok::<bool, function::DiagnosticV>(
                b,
            ),
            Err(d) => takes_profile(params.deep_view(), is_str) == Err::<
                bool,
                function::DiagnosticV,
            >(d.deep_view()),
        },
{
    if params.len() == 0 {
        return Ok(false);
    }
    if params.len() > 1 {
        return Err(
            function::diagnostic(
                Place::Params,
                "#[preflight] functions accept at most one parameter. Expected one of:\n  fn name() -> Preflight\n  fn name(env: &str) -> Preflight",
            ),
        );
    }
    assert(params.deep_view()[0] == params@[0].deep_view());
    match &params[0] {
        Param::Receiver => Err(
            function::diagnostic(
                Place::Param(0),
                "#[preflight] functions must not have a `self` parameter. Expected:\n  fn name(env: &str) -> Preflight",
            ),
        ),
        Param::Typed { attrs, ident, ty, is_context } => if is_str {
            Ok(true)
        } else {
            Err(
                function::diagnostic(
                    Place::ParamType(0),
                    "#[preflight] parameter must be `&str` exactly (not `String`, `&String`, `&mut str`, or `Cow<'_, str>`). Expected one of:\n  fn name() -> Preflight\n  fn name(env: &str) -> Preflight",
                ),
            )
        },
    }
}

/// The text that registers the readiness function `name`.
pub open spec fn preflight_text(name: Seq<char>, takes_profile: bool) -> Seq<char> {
    "# [:: rigtest :: __linkme :: distributed_slice (:: rigtest :: registry :: RIG_PREFLIGHT)] # [linkme (crate = :: rigtest :: __linkme)] static __RIGTEST_PREFLIGHT_"@
        + syntax::uppercased(name)
        + " : :: rigtest :: registry :: PreflightEntry = :: rigtest :: registry"@
        + " :: PreflightEntry :: new ("@
        + (if takes_profile {
        name
    } else {
        "(| _profile : & :: core :: primitive :: str | "@ + name + " ())"@
            + " as fn (& :: core :: primitive :: str) -> :: rigtest :: Preflight"@
    }) + ") ;"@
}

/// The expansion of the readiness function `f`, or what is wrong with it.
/// `is_str` says whether its parameter is `&str`, `is_preflight` whether its
/// return type is `Preflight`.
pub open spec fn preflight_of(
    f: function::FunctionV,
    is_str: bool,
    is_preflight: bool,
) -> Result<Seq<char>, function::DiagnosticV> {
    if f.is_async {
        Err(
            function::diag(
                Place::Async,
                "#[preflight] functions must be synchronous (the framework runs probes; the builder function only constructs the Preflight description). Expected one of:\n  fn name() -> Preflight\n  fn name(env: &str) -> Preflight"@,
            ),
        )
    } else {
        match takes_profile(f.params, is_str) {
            Err(d) => Err(d),
            Ok(takes) => if f.output is None {
                Err(
                    function::diag(
                        Place::Signature,
                        "#[preflight] functions must return `Preflight`"@,
                    ),
                )
            } else if !is_preflight {
                Err(
                    function::diag(
                        Place::Output,
                        "#[preflight] functions must return `Preflight`"@,
                    ),
                )
            } else {
                Ok(preflight_text(f.name, takes))
            },
        }
    }
}

/// Expands the readiness function `f`.
pub fn expand_preflight_fn(f: &Function, is_str: bool, is_preflight: bool) -> (r: Result<
    String,
    Diagnostic,
>)
    ensures
        same_text(r, preflight_of(f.deep_view(), is_str, is_preflight)),
{
    if f.is_async {
        return Err(
            function::diagnostic(
                Place::Async,
                "#[preflight] functions must be synchronous (the framework runs probes; the builder function only constructs the Preflight description). Expected one of:\n  fn name() -> Preflight\n  fn name(env: &str) -> Preflight",
            ),
        );
    }
    let takes = match validate_preflight_params(&f.params, is_str) {
        Ok(b) => b,
        Err(d) => return Err(d),
    };
    if f.output.is_none() {
        return Err(
            function::diagnostic(
                Place::Signature,
                "#[preflight] functions must return `Preflight`",
            ),
        );
    }
    if !is_preflight {
        return Err(
            function::diagnostic(Place::Output, "#[preflight] functions must return `Preflight`"),
        );
    }
    let mut r =
        "# [:: rigtest :: __linkme :: distributed_slice (:: rigtest :: registry :: RIG_PREFLIGHT)] # [linkme (crate = :: rigtest :: __linkme)] static __RIGTEST_PREFLIGHT_".to_owned();
    r.append(&syntax::uppercase(&f.name));
    r.append(" : :: rigtest :: registry :: PreflightEntry = :: rigtest :: registry");
    r.append(" :: PreflightEntry :: new (");
    if takes {
        r.append(&f.name);
    } else {
        let mut adapter = "(| _profile : & :: core :: primitive :: str | ".to_owned();
        adapter.append(&f.name);
        adapter.append(" ())");
        adapter.append(" as fn (& :: core :: primitive :: str) -> :: rigtest :: Preflight");
        r.append(&adapter);
    }
    r.append(") ;");
    Ok(r)
}

/// Whether the first parameter is `&str`.
pub open spec fn first_is_str(params: Seq<function::ParamV>) -> bool {
    params.len() > 0 && (params[0] matches function::ParamV::Typed { attrs, ident, ty, is_context }
        && types::str_ref(ty))
}

fn read_first_is_str(params: &Vec<Param>) -> (r: bool)
    ensures
        r == first_is_str(params.deep_view()),
{
    if params.len() == 0 {
        return false;
    }
    assert(params.deep_view()[0] == params@[0].deep_view());
    match &params[0] {
        Param::Receiver => false,
        Param::Typed { attrs, ident, ty, is_context } => types::param_is_str_ref(ty),
    }
}

/// Whether the return type is `Preflight`.
pub open spec fn output_is_preflight(output: Option<Seq<char>>) -> bool {
    output matches Some(ty) && types::preflight_type(ty)
}

/// The expansion of `#[preflight(attr)]` on `item`, or what is wrong with it.
pub open spec fn preflight_in(attr: Seq<char>, item: Seq<char>) -> Result<
    Seq<char>,
    function::DiagnosticV,
> {
    if attr.len() > 0 {
        Err(function::diag(Place::Arguments, "#[preflight] does not accept any arguments"@))
    } else {
        match function::function_in(item) {
            Err(e) => Err(function::diag(Place::UnreadItem, e)),
            Ok(f) => preflight_of(f, first_is_str(f.params), output_is_preflight(f.output)),
        }
    }
}

/// Expands `#[preflight(attr)]` on `item`.
pub fn preflight(attr: &str, item: &str) -> (r: Result<String, Diagnostic>)
    ensures
        same_text(r, preflight_in(attr@, item@)),
{
    if attr.unicode_len() > 0 {
        return Err(
            function::diagnostic(Place::Arguments, "#[preflight] does not accept any arguments"),
        );
    }
    let f = match function::read_function(item) {
        Ok(f) => f,
        Err(d) => return Err(d),
    };
    let is_str = read_first_is_str(&f.params);
    let is_preflight = match &f.output {
        Some(ty) => types::return_type_is_preflight(ty),
        None => false,
    };
    expand_preflight_fn(&f, is_str, is_preflight)
}

// ── #[global_setup] and #[global_teardown] ──────────────────────────────────

/// The text that registers the setup function `name`, whose value has the type
/// `ty`.
pub open spec fn setup_registration(name: Seq<char>, ty: Seq<char>) -> Seq<char> {
    "# [:: rigtest :: __linkme :: distributed_slice (:: rigtest :: registry :: RIG_GLOBAL_SETUP)] # [linkme (crate = :: rigtest :: __linkme)] static __RIGTEST_GLOBAL_SETUP : :: rigtest :: registry :: GlobalSetupEntry = :: rigtest :: registry :: GlobalSetupEntry :: new (|| { :: std :: boxed :: Box :: pin (async { :: std :: boxed :: Box :: new ("@
        + name
        + " () . await)"@
        + " as :: std :: boxed :: Box < dyn :: std :: any :: Any + Send + Sync > }) } , | boxed | { let concrete = boxed . "@
        + "downcast_ref :: < "@
        + ty
        + " > ()"@
        + " . expect (\"cargo-rigtest: global_setup serialize type mismatch\") ; :: rigtest :: __serde_json :: to_string (concrete) . expect (\"cargo-rigtest: failed to serialize global state\") } , | s | { let concrete = :: rigtest :: __serde_json :: "@
        + "from_str :: < "@
        + ty
        + " > (s)"@
        + " . expect (\"cargo-rigtest: failed to deserialize global state\") ; :: std :: boxed :: Box :: new (concrete) as :: std :: boxed :: Box < dyn :: std :: any :: Any + Send + Sync > } ,) ;"@
}

/// The type of the value that a function returns.
pub open spec fn value_type(output: Option<Seq<char>>) -> Seq<char> {
    match output {
        Some(ty) => ty,
        None => "()"@,
    }
}

/// The expansion of `#[global_setup]` on `item`, or what is wrong with it.
pub open spec fn global_setup_in(item: Seq<char>) -> Result<Seq<char>, function::DiagnosticV> {
    match function::function_in(item) {
        Err(e) => Err(function::diag(Place::UnreadItem, e)),
        Ok(f) => Ok(setup_registration(f.name, value_type(f.output))),
    }
}

/// The text that registers the setup function `name`, which returns `output`.
pub fn register_global_setup(name: &str, output: &Option<String>) -> (r: String)
    ensures
        r@ == setup_registration(name@, value_type(output.deep_view())),
{
    let ty = match output {
        Some(ty) => ty.clone(),
        None => "()".to_owned(),
    };
    let mut r =
        "# [:: rigtest :: __linkme :: distributed_slice (:: rigtest :: registry :: RIG_GLOBAL_SETUP)] # [linkme (crate = :: rigtest :: __linkme)] static __RIGTEST_GLOBAL_SETUP : :: rigtest :: registry :: GlobalSetupEntry = :: rigtest :: registry :: GlobalSetupEntry :: new (|| { :: std :: boxed :: Box :: pin (async { :: std :: boxed :: Box :: new (".to_owned();
    r.append(name);
    r.append(" () . await)");
    r.append(" as :: std :: boxed :: Box < dyn :: std :: any :: Any + Send + Sync > }) } , | boxed | { let concrete = boxed . ");
    r.append("downcast_ref :: < ");
    r.append(&ty);
    r.append(" > ()");
    r.append(" . expect (\"cargo-rigtest: global_setup serialize type mismatch\") ; :: rigtest :: __serde_json :: to_string (concrete) . expect (\"cargo-rigtest: failed to serialize global state\") } , | s | { let concrete = :: rigtest :: __serde_json :: ");
    r.append("from_str :: < ");
    r.append(&ty);
    r.append(" > (s)");
    r.append(" . expect (\"cargo-rigtest: failed to deserialize global state\") ; :: std :: boxed :: Box :: new (concrete) as :: std :: boxed :: Box < dyn :: std :: any :: Any + Send + Sync > } ,) ;");
    r
}

/// Expands `#[global_setup]` on `item`.
pub fn global_setup(item: &str) -> (r: Result<String, Diagnostic>)
    ensures
        same_text(r, global_setup_in(item@)),
{
    match function::read_function(item) {
        Ok(f) => Ok(register_global_setup(&f.name, &f.output)),
        Err(d) => Err(d),
    }
}

/// The text that registers the teardown function `name`, which takes a value
/// of the type `ty`.
pub open spec fn teardown_registration(name: Seq<char>, ty: Seq<char>) -> Seq<char> {
    "# [:: rigtest :: __linkme :: distributed_slice (:: rigtest :: registry :: RIG_GLOBAL_TEARDOWN)] # [linkme (crate = :: rigtest :: __linkme)] static __RIGTEST_GLOBAL_TEARDOWN : :: rigtest :: registry :: GlobalTeardownEntry = :: rigtest :: registry :: GlobalTeardownEntry :: new (| boxed | { :: std :: boxed :: Box :: pin (async move { let concrete = * boxed . "@
        + "downcast :: < "@
        + ty + " > ()"@
        + " . expect (\"global_teardown type mismatch\") ; "@ + name
        + " (concrete) . await"@
        + " }) }) ;"@
}

/// The type of the parameter, where there is exactly one and it has a type.
pub open spec fn sole_type(params: Seq<function::ParamV>) -> Option<Seq<char>> {
    if params.len() == 1 {
        match params[0] {
            function::ParamV::Typed { attrs, ident, ty, is_context } => Some(ty),
            _ => None,
        }
    } else {
        None
    }
}

/// The type of the parameter, where there is exactly one and it has a type.
pub fn teardown_param_type(params: &Vec<Param>) -> (r: Option<String>)
    ensures
        r.deep_view() == sole_type(params.deep_view()),
{
    if params.len() != 1 {
        return None;
    }
    assert(params.deep_view()[0] == params@[0].deep_view());
    match &params[0] {
        Param::Typed { attrs, ident, ty, is_context } => Some(ty.clone()),
        _ => None,
    }
}

/// The text that registers the teardown function `name`, which takes a value
/// of the type `ty`.
pub fn register_global_teardown(name: &str, ty: &str) -> (r: String)
    ensures
        r@ == teardown_registration(name@, ty@),
{
    let mut r =
        "# [:: rigtest :: __linkme :: distributed_slice (:: rigtest :: registry :: RIG_GLOBAL_TEARDOWN)] # [linkme (crate = :: rigtest :: __linkme)] static __RIGTEST_GLOBAL_TEARDOWN : :: rigtest :: registry :: GlobalTeardownEntry = :: rigtest :: registry :: GlobalTeardownEntry :: new (| boxed | { :: std :: boxed :: Box :: pin (async move { let concrete = * boxed . ".to_owned();
    r.append("downcast :: < ");
    r.append(ty);
    r.append(" > ()");
    r.append(" . expect (\"global_teardown type mismatch\") ; ");
    r.append(name);
    r.append(" (concrete) . await");
    r.append(" }) }) ;");
    r
}

/// The expansion of `#[global_teardown]` on `item`, or what is wrong with it.
pub open spec fn global_teardown_in(item: Seq<char>) -> Result<Seq<char>, function::DiagnosticV> {
    match function::function_in(item) {
        Err(e) => Err(function::diag(Place::UnreadItem, e)),
        Ok(f) => match sole_type(f.params) {
            Some(ty) => Ok(teardown_registration(f.name, ty)),
            None => Err(
                function::diag(
                    Place::CallSite,
                    "#[global_teardown] function must have exactly one typed parameter"@,
                ),
            ),
        },
    }
}

/// Expands `#[global_teardown]` on `item`.
pub fn global_teardown(item: &str) -> (r: Result<String, Diagnostic>)
    ensures
        same_text(r, global_teardown_in(item@)),
{
    let f = match function::read_function(item) {
        Ok(f) => f,
        Err(d) => return Err(d),
    };
    match teardown_param_type(&f.params) {
        Some(ty) => Ok(register_global_teardown(&f.name, &ty)),
        None => Err(
            function::diagnostic(
                Place::CallSite,
                "#[global_teardown] function must have exactly one typed parameter",
            ),
        ),
    }
}

// ── #[rigtest::main] ────────────────────────────────────────────────────────

/// What the arguments of `#[rigtest::main(..)]` say.
pub struct MainArgs {
    pub http_client: Option<String>,
    pub ssh_client: Option<String>,
    pub default_timeout: Option<String>,
}

pub struct MainArgsV {
    pub http_client: Option<Seq<char>>,
    pub ssh_client: Option<Seq<char>>,
    pub default_timeout: Option<Seq<char>>,
}

impl DeepView for MainArgs {
    type V = MainArgsV;

    open spec fn deep_view(&self) -> MainArgsV {
        MainArgsV {
            http_client: self.http_client.deep_view(),
            ssh_client: self.ssh_client.deep_view(),
            default_timeout: self.default_timeout.deep_view(),
        }
    }
}

/// What the arguments `metas` say, the last of each name counting; or what is
/// wrong with the first argument that is another one.
pub open spec fn main_args_of(metas: Seq<syntax::MetaV>) -> Result<
    MainArgsV,
    function::DiagnosticV,
>
    decreases metas.len(),
{
    if metas.len() == 0 {
        Ok(MainArgsV { http_client: None, ssh_client: None, default_timeout: None })
    } else {
        match main_args_of(metas.drop_last()) {
            Err(d) => Err(d),
            Ok(before) => match metas.last() {
                syntax::MetaV::Assign { name, value } if name == "http_client"@ => Ok(
                    MainArgsV { http_client: Some(value), ..before },
                ),
                syntax::MetaV::Assign { name, value } if name == "ssh_client"@ => Ok(
                    MainArgsV { ssh_client: Some(value), ..before },
                ),
                syntax::MetaV::Assign { name, value } if name == "default_timeout"@ => Ok(
                    MainArgsV { default_timeout: Some(value), ..before },
                ),
                _ => Err(
                    function::diag(
                        Place::Argument((metas.len() - 1) as usize),
                        "unknown parameter for #[rigtest::main]; expected `http_client = <fn>`, `ssh_client = <fn>`, or `default_timeout = <Duration>`"@,
                    ),
                ),
            },
        }
    }
}

proof fn lemma_main_args_of_error(metas: Seq<syntax::MetaV>, n: int)
    requires
        0 <= n <= metas.len(),
        main_args_of(metas.take(n)) is Err,
    ensures
        main_args_of(metas) == main_args_of(metas.take(n)),
    decreases metas.len(),
{
    if n == metas.len() {
        assert(metas.take(n) =~= metas);
    } else {
        assert(metas.drop_last().take(n) =~= metas.take(n));
        lemma_main_args_of_error(metas.drop_last(), n);
    }
}

/// What the arguments `metas` of `#[rigtest::main(..)]` say.
pub fn main_args(metas: &Vec<Meta>) -> (r: Result<MainArgs, Diagnostic>)
    ensures
        match r {
            Ok(a) => main_args_of(metas.deep_view()) == Ok::<MainArgsV, function::DiagnosticV>(
                a.deep_view(),
            ),
            Err(d) => main_args_of(metas.deep_view()) == Err::<MainArgsV, function::DiagnosticV>(
                d.deep_view(),
            ),
        },
{
    let ghost all = metas.deep_view();
    let mut args = MainArgs { http_client: None, ssh_client: None, default_timeout: None };
    let mut i: usize = 0;
    while i < metas.len()
        invariant
            i <= metas@.len(),
            all == metas.deep_view(),
            main_args_of(all.take(i as int)) == Ok::<MainArgsV, function::DiagnosticV>(
                args.deep_view(),
            ),
        decreases metas@.len() - i,
    {
        proof {
            assert(all.take(i + 1).drop_last() =~= all.take(i as int));
            assert(all.take(i + 1).last() == metas@[i as int].deep_view());
        }
        let mut known = false;
        if let Meta::Assign { name, value } = &metas[i] {
            if text::same(name, "http_client") {
                args.http_client = Some(value.clone());
                known = true;
            } else if text::same(name, "ssh_client") {
                args.ssh_client = Some(value.clone());
                known = true;
            } else if text::same(name, "default_timeout") {
                args.default_timeout = Some(value.clone());
                known = true;
            }
        }
        if !known {
            proof {
                lemma_main_args_of_error(all, i + 1);
            }
            return Err(
                function::diagnostic(
                    Place::Argument(i),
                    "unknown parameter for #[rigtest::main]; expected `http_client = <fn>`, `ssh_client = <fn>`, or `default_timeout = <Duration>`",
                ),
            );
        }
        i += 1;
    }
    assert(all.take(i as int) =~= all);
    Ok(args)
}

/// The text that registers `value`, where there is one, behind `before`.
pub open spec fn entry_text(before: Seq<char>, value: Option<Seq<char>>) -> Seq<char> {
    match value {
        Some(v) => before + v + ") ;"@,
        None => seq![],
    }
}

fn entry(before: &str, value: &Option<String>) -> (r: String)
    ensures
        r@ == entry_text(before@, value.deep_view()),
{
    match value {
        Some(v) => {
            let mut r = before.to_owned();
            r.append(v);
            r.append(") ;");
            r
        },
        None => String::new(),
    }
}

/// The text of the test program's `main`, with what its attribute registers.
pub open spec fn main_text(args: MainArgsV) -> Seq<char> {
    "fn main () { :: rigtest :: run_main () ; } "@ + entry_text(
        "# [:: rigtest :: __linkme :: distributed_slice (:: rigtest :: registry :: RIG_HTTP_CLIENT_CONFIGURATOR)] # [linkme (crate = :: rigtest :: __linkme)] static __RIGTEST_HTTP_CLIENT_CONFIGURATOR : :: rigtest :: registry :: HttpClientConfiguratorEntry = :: rigtest :: registry :: HttpClientConfiguratorEntry :: new ("@,
        args.http_client,
    ) + " "@ + entry_text(
        "# [cfg (unix)] # [:: rigtest :: __linkme :: distributed_slice (:: rigtest :: registry :: RIG_SSH_CLIENT_CONFIGURATOR)] # [linkme (crate = :: rigtest :: __linkme)] static __RIGTEST_SSH_CLIENT_CONFIGURATOR : :: rigtest :: registry :: SshClientConfiguratorEntry = :: rigtest :: registry :: SshClientConfiguratorEntry :: new ("@,
        args.ssh_client,
    ) + " "@ + entry_text(
        "# [:: rigtest :: __linkme :: distributed_slice (:: rigtest :: registry :: RIG_DEFAULT_TIMEOUT)] # [linkme (crate = :: rigtest :: __linkme)] static __RIGTEST_DEFAULT_TIMEOUT : :: rigtest :: registry :: DefaultTimeoutEntry = :: rigtest :: registry :: DefaultTimeoutEntry :: new ("@,
        args.default_timeout,
    )
}

/// The text of the test program's `main`, with what its attribute registers.
pub fn render_main(args: &MainArgs) -> (r: String)
    ensures
        r@ == main_text(args.deep_view()),
{
    let mut r = "fn main () { :: rigtest :: run_main () ; } ".to_owned();
    r.append(
        &entry(
            "# [:: rigtest :: __linkme :: distributed_slice (:: rigtest :: registry :: RIG_HTTP_CLIENT_CONFIGURATOR)] # [linkme (crate = :: rigtest :: __linkme)] static __RIGTEST_HTTP_CLIENT_CONFIGURATOR : :: rigtest :: registry :: HttpClientConfiguratorEntry = :: rigtest :: registry :: HttpClientConfiguratorEntry :: new (",
            &args.http_client,
        ),
    );
    r.append(" ");
    r.append(
        &entry(
            "# [cfg (unix)] # [:: rigtest :: __linkme :: distributed_slice (:: rigtest :: registry :: RIG_SSH_CLIENT_CONFIGURATOR)] # [linkme (crate = :: rigtest :: __linkme)] static __RIGTEST_SSH_CLIENT_CONFIGURATOR : :: rigtest :: registry :: SshClientConfiguratorEntry = :: rigtest :: registry :: SshClientConfiguratorEntry :: new (",
            &args.ssh_client,
        ),
    );
    r.append(" ");
    r.append(
        &entry(
            "# [:: rigtest :: __linkme :: distributed_slice (:: rigtest :: registry :: RIG_DEFAULT_TIMEOUT)] # [linkme (crate = :: rigtest :: __linkme)] static __RIGTEST_DEFAULT_TIMEOUT : :: rigtest :: registry :: DefaultTimeoutEntry = :: rigtest :: registry :: DefaultTimeoutEntry :: new (",
            &args.default_timeout,
        ),
    );
    r
}

/// What is wrong with a function under `#[rigtest::main]`, if anything: it has
/// to be named `main`, take nothing and do nothing.
pub open spec fn main_error(name: Seq<char>, params: nat, statements: nat) -> Option<
    function::DiagnosticV,
> {
    if name != "main"@ {
        Some(
            function::diag(
                Place::Name,
                "#[rigtest::main] must be applied to a function named `main`"@,
            ),
        )
    } else if params > 0 {
        Some(
            function::diag(Place::Params, "#[rigtest::main] `fn main()` must take no arguments"@),
        )
    } else if statements > 0 {
        Some(
            function::diag(
                Place::Body,
                "#[rigtest::main] `fn main()` body must be empty — place configuration in a separate function referenced by the `http_client` parameter"@,
            ),
        )
    } else {
        None
    }
}

/// What is wrong with a function under `#[rigtest::main]`, if anything.
pub fn check_main(name: &str, params: usize, statements: usize) -> (r: Option<Diagnostic>)
    ensures
        r.deep_view() == main_error(name@, params as nat, statements as nat),
{
    if !text::same(name, "main") {
        Some(
            function::diagnostic(
                Place::Name,
                "#[rigtest::main] must be applied to a function named `main`",
            ),
        )
    } else if params > 0 {
        Some(
            function::diagnostic(
                Place::Params,
                "#[rigtest::main] `fn main()` must take no arguments",
            ),
        )
    } else if statements > 0 {
        Some(
            function::diagnostic(
                Place::Body,
                "#[rigtest::main] `fn main()` body must be empty — place configuration in a separate function referenced by the `http_client` parameter",
            ),
        )
    } else {
        None
    }
}

/// The expansion of `#[rigtest::main(attr)]` on `item`, or what is wrong with
/// it.
pub open spec fn main_in(attr: Seq<char>, item: Seq<char>) -> Result<
    Seq<char>,
    function::DiagnosticV,
> {
    match function::function_in(item) {
        Err(e) => Err(function::diag(Place::UnreadItem, e)),
        Ok(f) => match main_error(f.name, f.inputs.len(), f.statements as nat) {
            Some(d) => Err(d),
            None => match syntax::metas_in(attr) {
                Err(e) => Err(function::diag(Place::UnreadArguments, e)),
                Ok(metas) => match main_args_of(metas) {
                    Err(d) => Err(d),
                    Ok(args) => Ok(main_text(args)),
                },
            },
        },
    }
}

/// Expands `#[rigtest::main(attr)]` on `item`.
pub fn main_function(attr: &str, item: &str) -> (r: Result<String, Diagnostic>)
    ensures
        same_text(r, main_in(attr@, item@)),
{
    let f = match function::read_function(item) {
        Ok(f) => f,
        Err(d) => return Err(d),
    };
    if let Some(d) = check_main(&f.name, f.inputs.len(), f.statements) {
        return Err(d);
    }
    let metas = match syntax::read_metas(attr) {
        Ok(metas) => metas,
        Err(e) => return Err(Diagnostic { at: Place::UnreadArguments, message: e }),
    };
    match main_args(&metas) {
        Ok(args) => Ok(render_main(&args)),
        Err(d) => Err(d),
    }
}

// ── laws ────────────────────────────────────────────────────────────────────

/// The position of the last argument that gives `name` a value.
pub open spec fn last_given(metas: Seq<syntax::MetaV>, name: Seq<char>) -> Option<int>
    decreases metas.len(),
{
    if metas.len() == 0 {
        None
    } else if gives(metas.last(), name) {
        Some(metas.len() - 1)
    } else {
        last_given(metas.drop_last(), name)
    }
}

/// Whether an argument gives `name` a value.
pub open spec fn gives(meta: syntax::MetaV, name: Seq<char>) -> bool {
    meta matches syntax::MetaV::Assign { name: n, value } && n == name
}

/// The value that the last argument for `name` gives, where there is one.
pub open spec fn value_given(metas: Seq<syntax::MetaV>, name: Seq<char>) -> Option<Seq<char>> {
    match last_given(metas, name) {
        Some(i) => Some(metas[i]->value),
        None => None,
    }
}

proof fn lemma_last_given(metas: Seq<syntax::MetaV>, name: Seq<char>)
    ensures
        last_given(metas, name) matches Some(i) ==> 0 <= i < metas.len() && gives(metas[i], name),
    decreases metas.len(),
{
    if metas.len() > 0 {
        lemma_last_given(metas.drop_last(), name);
    }
}

/// A fixture has the teardown that its last argument names, and none where it
/// has no argument; any argument but `teardown = ..` is refused.
pub proof fn law_teardown_that_is_named(metas: Seq<syntax::MetaV>)
    ensures
        teardown_of(metas) is Ok <==> forall|i: int|
            0 <= i < metas.len() ==> gives(#[trigger] metas[i], "teardown"@),
        teardown_of(metas) matches Ok(t) ==> t == value_given(metas, "teardown"@),
    decreases metas.len(),
{
    if metas.len() > 0 {
        let head = metas.drop_last();
        law_teardown_that_is_named(head);
        lemma_last_given(head, "teardown"@);
        assert forall|i: int| 0 <= i < head.len() implies head[i] == metas[i] by {}
        assert(metas[metas.len() - 1] == metas.last());
        if teardown_of(metas) is Ok {
            assert forall|i: int| 0 <= i < metas.len() implies gives(
                #[trigger] metas[i],
                "teardown"@,
            ) by {
                if i < head.len() {
                    assert(gives(head[i], "teardown"@));
                }
            }
        }
        if forall|i: int| 0 <= i < metas.len() ==> gives(#[trigger] metas[i], "teardown"@) {
            assert forall|i: int| 0 <= i < head.len() implies gives(
                #[trigger] head[i],
                "teardown"@,
            ) by {
                assert(gives(metas[i], "teardown"@));
            }
        }
    }
}

/// The body of a fixture's teardown function: the call of what the fixture
/// names, or nothing.
pub open spec fn teardown_body(teardown: Option<Seq<char>>) -> Code {
    match teardown {
        Some(path) => Code::Call { path, args: seq!["ctx"@] },
        None => Code::Done,
    }
}

/// Read as a program, the teardown function of a fixture calls what the
/// fixture names, with the context, and comes to what that comes to; where the
/// fixture names nothing, it calls nothing and succeeds.
pub proof fn law_teardown_function(
    vis: Seq<char>,
    err: Seq<char>,
    teardown: Option<Seq<char>>,
    names: Map<Seq<char>, Worth>,
    w: World,
)
    ensures
        exists|head: Seq<char>|
            teardown_fn_text(vis, err, teardown) == #[trigger] (head + err + " > "@)
                + program::source(Code::Block(Box::new(teardown_body(teardown)))),
        ({
            let r = program::run(teardown_body(teardown), names, w);
            &&& teardown matches Some(path) ==> {
                &&& r.calls == seq![(path, seq!["ctx"@])]
                &&& r.end == Ending::Gives(Worth::Result((w.error)((path, seq!["ctx"@]))))
            }
            &&& teardown is None ==> {
                &&& r.calls.len() == 0
                &&& r.end == Ending::Gives(Worth::Result(None))
            }
        }),
{
    let code = teardown_body(teardown);
    let block = Code::Block(Box::new(code));
    assert(program::source(block) == "{ "@ + program::source(code) + " }"@);
    reveal_strlit(" > { ");
    reveal_strlit(" > ");
    reveal_strlit("{ ");
    assert(" > { "@ =~= " > "@ + "{ "@);
    match teardown {
        Some(path) => {
            reveal_strlit(" (ctx) . await }");
            reveal_strlit(" (");
            reveal_strlit("ctx");
            reveal_strlit(") . await");
            reveal_strlit(" }");
            assert(" (ctx) . await }"@ =~= " ("@ + "ctx"@ + ") . await"@ + " }"@);
            assert(text::join(seq!["ctx"@], " , "@) == "ctx"@);
            assert(program::source(code) == path + " ("@ + "ctx"@ + ") . await"@);
            let head = vis
                + " async fn __rigtest_fixture_teardown (ctx : :: std :: sync :: Arc < :: rigtest :: TestContext > ,) -> :: core :: result :: Result < () , "@;
            assert(teardown_fn_text(vis, err, teardown) =~= (head + err + " > "@)
                + program::source(block));
        },
        None => {
            reveal_strlit(" > { :: core :: result :: Result :: Ok (()) }");
            reveal_strlit(":: core :: result :: Result :: Ok (())");
            reveal_strlit(" }");
            assert(" > { :: core :: result :: Result :: Ok (()) }"@ =~= " > "@ + "{ "@
                + ":: core :: result :: Result :: Ok (())"@ + " }"@);
            assert(program::source(code) == ":: core :: result :: Result :: Ok (())"@);
            let head = "# [allow (clippy :: unused_async)] "@ + vis
                + " async fn __rigtest_fixture_teardown (_ctx : :: std :: sync :: Arc < :: rigtest :: TestContext > ,) -> :: core :: result :: Result < () , "@;
            assert(teardown_fn_text(vis, err, teardown) =~= (head + err + " > "@)
                + program::source(block));
        },
    }
}

/// A fixture is expanded exactly where it is `async`, returns a `Result`, and
/// takes nothing or the context; the expansion is of a type of the fixture's
/// name, whose setup takes what the fixture takes, returns what it returns and
/// does what it does, and whose teardown is the one that is named.
pub proof fn law_what_a_fixture_becomes(
    f: function::FunctionV,
    err: Option<Seq<char>>,
    teardown: Option<Seq<char>>,
)
    ensures
        fixture_of(f, err, teardown) is Ok <==> f.is_async && f.output is Some && err is Some && (
        f.params.len() == 0 || (f.params.len() == 1 && (f.params[0] matches function::ParamV::Typed {
            attrs,
            ident,
            ty,
            is_context,
        } && is_context))),
        fixture_of(f, err, teardown) matches Ok(text) ==> {
            let param = if f.params.len() == 0 {
                "_ctx : :: std :: sync :: Arc < :: rigtest :: TestContext >"@
            } else {
                f.inputs[0]
            };
            &&& text::contains(text, " struct "@ + f.name + " { }"@)
            &&& text::contains(
                text,
                " async fn __rigtest_fixture_setup ("@ + param + ") -> "@ + f.output->0 + " "@
                    + f.block,
            )
            &&& text::contains(text, teardown_fn_text(f.vis, err->0, teardown))
        },
{
    if let Ok(text) = fixture_of(f, err, teardown) {
        let param = setup_param(f.params, f.inputs)->Ok_0;
        let t = teardown_fn_text(f.vis, err->0, teardown);
        let o = f.output->0;
        let a = "# [allow (non_camel_case_types)] # [doc (hidden)] "@ + f.vis;
        let b = " struct "@ + f.name + " { }"@;
        let c = " # [allow (non_camel_case_types)] impl "@ + f.name
            + " { # [allow (clippy :: unused_async)] "@ + f.vis;
        let d = " async fn __rigtest_fixture_setup ("@ + param + ") -> "@ + o + " "@ + f.block;
        reveal_strlit(" { } # [allow (non_camel_case_types)] impl ");
        reveal_strlit(" { }");
        reveal_strlit(" # [allow (non_camel_case_types)] impl ");
        assert(" { } # [allow (non_camel_case_types)] impl "@ =~= " { }"@
            + " # [allow (non_camel_case_types)] impl "@);
        assert(text =~= a + b + (c + d + " "@ + t + " }"@));
        lemma_stands(a, b, c + d + " "@ + t + " }"@);
        assert(text =~= (a + b + c) + d + (" "@ + t + " }"@));
        lemma_stands(a + b + c, d, " "@ + t + " }"@);
        assert(text =~= (a + b + c + d + " "@) + t + " }"@);
        lemma_stands(a + b + c + d + " "@, t, " }"@);
    }
}

proof fn lemma_stands(a: Seq<char>, b: Seq<char>, c: Seq<char>)
    ensures
        text::contains(a + b + c, b),
{
    assert(b.subrange(0, b.len() as int) =~= b);
    assert(text::occurs_at(b, b, 0));
    text::lemma_contains_within(a, b, c, b);
}

/// A fixture's errors are of the second type of the `Result` that it returns.
/// A `Result` that names one type has none, and neither has another type or a
/// fixture that returns nothing.
pub proof fn law_errors_of_a_fixture(ty: Seq<char>, names: Seq<Seq<char>>, args: Seq<Seq<char>>)
    requires
        names.len() > 0,
        types::spelled(ty, names, Some(args)),
        forall|i: int| 0 <= i < args.len() ==> syntax::arg_type(#[trigger] args[i]) is Some,
    ensures
        err_of(None) is None,
        err_of(Some(ty)) is Some <==> names.last() == "Result"@ && args.len() > 1,
        err_of(Some(ty)) is Some ==> err_of(Some(ty)) == syntax::arg_type(args[1]),
{
    types::lemma_all_types(args);
}

/// A readiness function is expanded exactly where it is not `async`, takes
/// nothing or the profile's name, and returns `Preflight`. Where it takes the
/// name it is registered as it is, and otherwise behind a closure that drops
/// the name.
pub proof fn law_what_a_readiness_function_becomes(
    f: function::FunctionV,
    is_str: bool,
    is_preflight: bool,
)
    ensures
        preflight_of(f, is_str, is_preflight) is Ok <==> !f.is_async && f.output is Some
            && is_preflight && (f.params.len() == 0 || (f.params.len() == 1 && !(
        f.params[0] is Receiver) && is_str)),
        preflight_of(f, is_str, is_preflight) matches Ok(text) ==> {
            let as_it_is = " :: PreflightEntry :: new ("@ + f.name + ") ;"@;
            let dropping = "(| _profile : & :: core :: primitive :: str | "@ + f.name + " ())"@;
            &&& f.params.len() == 1 ==> text::contains(text, as_it_is)
            &&& f.params.len() == 0 ==> text::contains(text, dropping)
        },
{
    if let Ok(text) = preflight_of(f, is_str, is_preflight) {
        let a =
            "# [:: rigtest :: __linkme :: distributed_slice (:: rigtest :: registry :: RIG_PREFLIGHT)] # [linkme (crate = :: rigtest :: __linkme)] static __RIGTEST_PREFLIGHT_"@;
        let front = " : :: rigtest :: registry :: PreflightEntry = :: rigtest :: registry"@;
        let new = " :: PreflightEntry :: new ("@;
        let upper = syntax::uppercased(f.name);
        if f.params.len() == 1 {
            lemma_as_it_is(a + upper + front, new, f.name, ") ;"@);
        } else {
            lemma_dropping(
                a + upper + front + new,
                "(| _profile : & :: core :: primitive :: str | "@,
                f.name,
                " ())"@,
                " as fn (& :: core :: primitive :: str) -> :: rigtest :: Preflight"@,
                ") ;"@,
            );
        }
    }
}

proof fn lemma_as_it_is(a: Seq<char>, n: Seq<char>, name: Seq<char>, e: Seq<char>)
    ensures
        text::contains(a + n + name + e, n + name + e),
{
    let b = n + name + e;
    assert(a + n + name + e =~= a + b);
    assert((a + b).subrange(a.len() as int, a.len() as int + b.len()) =~= b);
    assert(text::occurs_at(a + b, b, a.len() as int));
}

proof fn lemma_dropping(
    a: Seq<char>,
    x: Seq<char>,
    name: Seq<char>,
    y: Seq<char>,
    z: Seq<char>,
    e: Seq<char>,
)
    ensures
        text::contains(a + (x + name + y + z) + e, x + name + y),
{
    lemma_stands(a, x + name + y, z + e);
    assert(a + (x + name + y) + (z + e) =~= a + (x + name + y + z) + e);
}

/// The setup of a suite is called, and its value written down and read back as
/// a value of the type that it returns, or of none where it returns nothing.
/// The teardown of a suite takes a value of the type of its one parameter, and
/// is called with it.
pub proof fn law_setup_and_teardown_of_a_suite(name: Seq<char>, ty: Seq<char>)
    ensures
        text::contains(setup_registration(name, ty), name + " () . await)"@),
        text::contains(setup_registration(name, ty), "downcast_ref :: < "@ + ty + " > ()"@),
        text::contains(setup_registration(name, ty), "from_str :: < "@ + ty + " > (s)"@),
        text::contains(teardown_registration(name, ty), "downcast :: < "@ + ty + " > ()"@),
        text::contains(teardown_registration(name, ty), name + " (concrete) . await"@),
        value_type(Some(ty)) == ty,
        value_type(None) == "()"@,
{
    lemma_setup_pieces(name, ty);
    lemma_teardown_pieces(name, ty);
}

proof fn lemma_setup_pieces(name: Seq<char>, ty: Seq<char>)
    ensures
        text::contains(setup_registration(name, ty), name + " () . await)"@),
        text::contains(setup_registration(name, ty), "downcast_ref :: < "@ + ty + " > ()"@),
        text::contains(setup_registration(name, ty), "from_str :: < "@ + ty + " > (s)"@),
{
    let h = "# [:: rigtest :: __linkme :: distributed_slice (:: rigtest :: registry :: RIG_GLOBAL_SETUP)] # [linkme (crate = :: rigtest :: __linkme)] static __RIGTEST_GLOBAL_SETUP : :: rigtest :: registry :: GlobalSetupEntry = :: rigtest :: registry :: GlobalSetupEntry :: new (|| { :: std :: boxed :: Box :: pin (async { :: std :: boxed :: Box :: new ("@;
    let a = " as :: std :: boxed :: Box < dyn :: std :: any :: Any + Send + Sync > }) } , | boxed | { let concrete = boxed . "@;
    let b = " . expect (\"cargo-rigtest: global_setup serialize type mismatch\") ; :: rigtest :: __serde_json :: to_string (concrete) . expect (\"cargo-rigtest: failed to serialize global state\") } , | s | { let concrete = :: rigtest :: __serde_json :: "@;
    let c = " . expect (\"cargo-rigtest: failed to deserialize global state\") ; :: std :: boxed :: Box :: new (concrete) as :: std :: boxed :: Box < dyn :: std :: any :: Any + Send + Sync > } ,) ;"@;
    let x = name + " () . await)"@;
    let y = "downcast_ref :: < "@ + ty + " > ()"@;
    let z = "from_str :: < "@ + ty + " > (s)"@;
    lemma_seven(h, name, " () . await)"@, a, "downcast_ref :: < "@, ty, " > ()"@, b, "from_str :: < "@, " > (s)"@, c);
    lemma_stands(h, x, a + y + b + z + c);
    lemma_stands(h + x + a, y, b + z + c);
    lemma_stands(h + x + a + y + b, z, c);
    lemma_regroup_seven(h, x, a, y, b, z, c);
}

proof fn lemma_seven(
    h: Seq<char>,
    n: Seq<char>,
    n_end: Seq<char>,
    a: Seq<char>,
    y: Seq<char>,
    t: Seq<char>,
    y_end: Seq<char>,
    b: Seq<char>,
    z: Seq<char>,
    z_end: Seq<char>,
    c: Seq<char>,
)
    ensures
        h + n + n_end + a + y + t + y_end + b + z + t + z_end + c == h + (n + n_end) + a + (y + t
            + y_end) + b + (z + t + z_end) + c,
{
    assert(h + n + n_end + a + y + t + y_end + b + z + t + z_end + c =~= h + (n + n_end) + a + (y + t
        + y_end) + b + (z + t + z_end) + c);
}

proof fn lemma_regroup_seven(
    h: Seq<char>,
    x: Seq<char>,
    a: Seq<char>,
    y: Seq<char>,
    b: Seq<char>,
    z: Seq<char>,
    c: Seq<char>,
)
    ensures
        h + x + (a + y + b + z + c) == h + x + a + y + b + z + c,
        h + x + a + y + (b + z + c) == h + x + a + y + b + z + c,
{
    assert(h + x + (a + y + b + z + c) =~= h + x + a + y + b + z + c);
    assert(h + x + a + y + (b + z + c) =~= h + x + a + y + b + z + c);
}

proof fn lemma_teardown_pieces(name: Seq<char>, ty: Seq<char>)
    ensures
        text::contains(teardown_registration(name, ty), "downcast :: < "@ + ty + " > ()"@),
        text::contains(teardown_registration(name, ty), name + " (concrete) . await"@),
{
    let h = "# [:: rigtest :: __linkme :: distributed_slice (:: rigtest :: registry :: RIG_GLOBAL_TEARDOWN)] # [linkme (crate = :: rigtest :: __linkme)] static __RIGTEST_GLOBAL_TEARDOWN : :: rigtest :: registry :: GlobalTeardownEntry = :: rigtest :: registry :: GlobalTeardownEntry :: new (| boxed | { :: std :: boxed :: Box :: pin (async move { let concrete = * boxed . "@;
    let e = " . expect (\"global_teardown type mismatch\") ; "@;
    let c = " }) }) ;"@;
    let y = "downcast :: < "@ + ty + " > ()"@;
    let x = name + " (concrete) . await"@;
    lemma_five(h, "downcast :: < "@, ty, " > ()"@, e, name, " (concrete) . await"@, c);
    lemma_stands(h, y, e + x + c);
    lemma_stands(h + y + e, x, c);
    lemma_regroup_five(h, y, e, x, c);
}

proof fn lemma_five(
    h: Seq<char>,
    y: Seq<char>,
    t: Seq<char>,
    y_end: Seq<char>,
    e: Seq<char>,
    n: Seq<char>,
    n_end: Seq<char>,
    c: Seq<char>,
)
    ensures
        h + y + t + y_end + e + n + n_end + c == h + (y + t + y_end) + e + (n + n_end) + c,
{
    assert(h + y + t + y_end + e + n + n_end + c =~= h + (y + t + y_end) + e + (n + n_end) + c);
}

proof fn lemma_regroup_five(
    h: Seq<char>,
    y: Seq<char>,
    e: Seq<char>,
    x: Seq<char>,
    c: Seq<char>,
)
    ensures
        h + y + (e + x + c) == h + y + e + x + c,
{
    assert(h + y + (e + x + c) =~= h + y + e + x + c);
}

/// The arguments of `main` give the client configurations and the timeout that
/// the last argument for each of them gives; any other argument is refused.
pub proof fn law_what_main_is_given(metas: Seq<syntax::MetaV>)
    ensures
        main_args_of(metas) is Ok <==> forall|i: int|
            0 <= i < metas.len() ==> known_to_main(#[trigger] metas[i]),
        main_args_of(metas) matches Ok(args) ==> {
            &&& args.http_client == value_given(metas, "http_client"@)
            &&& args.ssh_client == value_given(metas, "ssh_client"@)
            &&& args.default_timeout == value_given(metas, "default_timeout"@)
        },
    decreases metas.len(),
{
    reveal_strlit("http_client");
    reveal_strlit("ssh_client");
    reveal_strlit("default_timeout");
    assert("http_client"@.len() == 11 && "ssh_client"@.len() == 10 && "default_timeout"@.len()
        == 15);
    if metas.len() > 0 {
        let head = metas.drop_last();
        law_what_main_is_given(head);
        lemma_last_given(head, "http_client"@);
        lemma_last_given(head, "ssh_client"@);
        lemma_last_given(head, "default_timeout"@);
        assert forall|i: int| 0 <= i < head.len() implies head[i] == metas[i] by {}
        assert(metas[metas.len() - 1] == metas.last());
        if main_args_of(metas) is Ok {
            assert forall|i: int| 0 <= i < metas.len() implies known_to_main(
                #[trigger] metas[i],
            ) by {
                if i < head.len() {
                    assert(known_to_main(head[i]));
                }
            }
        }
        if forall|i: int| 0 <= i < metas.len() ==> known_to_main(#[trigger] metas[i]) {
            assert forall|i: int| 0 <= i < head.len() implies known_to_main(#[trigger] head[i]) by {
                assert(known_to_main(metas[i]));
            }
        }
    }
}

/// Whether an argument is one that `main` takes.
pub open spec fn known_to_main(meta: syntax::MetaV) -> bool {
    gives(meta, "http_client"@) || gives(meta, "ssh_client"@) || gives(meta, "default_timeout"@)
}

/// Each of the client configurations and the timeout is registered as what it
/// is, exactly where it is given, and beside the call of `run_main`.
pub proof fn law_what_main_registers(args: MainArgsV)
    ensures
        "fn main () { :: rigtest :: run_main () ; } "@.is_prefix_of(main_text(args)),
        args.http_client matches Some(v) ==> text::contains(
            main_text(args),
            "# [:: rigtest :: __linkme :: distributed_slice (:: rigtest :: registry :: RIG_HTTP_CLIENT_CONFIGURATOR)] # [linkme (crate = :: rigtest :: __linkme)] static __RIGTEST_HTTP_CLIENT_CONFIGURATOR : :: rigtest :: registry :: HttpClientConfiguratorEntry = :: rigtest :: registry :: HttpClientConfiguratorEntry :: new ("@ + v + ") ;"@,
        ),
        args.ssh_client matches Some(v) ==> text::contains(
            main_text(args),
            "# [cfg (unix)] # [:: rigtest :: __linkme :: distributed_slice (:: rigtest :: registry :: RIG_SSH_CLIENT_CONFIGURATOR)] # [linkme (crate = :: rigtest :: __linkme)] static __RIGTEST_SSH_CLIENT_CONFIGURATOR : :: rigtest :: registry :: SshClientConfiguratorEntry = :: rigtest :: registry :: SshClientConfiguratorEntry :: new ("@ + v + ") ;"@,
        ),
        args.default_timeout matches Some(v) ==> text::contains(
            main_text(args),
            "# [:: rigtest :: __linkme :: distributed_slice (:: rigtest :: registry :: RIG_DEFAULT_TIMEOUT)] # [linkme (crate = :: rigtest :: __linkme)] static __RIGTEST_DEFAULT_TIMEOUT : :: rigtest :: registry :: DefaultTimeoutEntry = :: rigtest :: registry :: DefaultTimeoutEntry :: new ("@ + v + ") ;"@,
        ),
        args.http_client is None && args.ssh_client is None && args.default_timeout is None
            ==> main_text(args) == "fn main () { :: rigtest :: run_main () ; } "@ + " "@ + " "@,
{
    let m = "fn main () { :: rigtest :: run_main () ; } "@;
    let none: Seq<char> = seq![];
    let a = entry_text("# [:: rigtest :: __linkme :: distributed_slice (:: rigtest :: registry :: RIG_HTTP_CLIENT_CONFIGURATOR)] # [linkme (crate = :: rigtest :: __linkme)] static __RIGTEST_HTTP_CLIENT_CONFIGURATOR : :: rigtest :: registry :: HttpClientConfiguratorEntry = :: rigtest :: registry :: HttpClientConfiguratorEntry :: new ("@, args.http_client);
    let b = entry_text("# [cfg (unix)] # [:: rigtest :: __linkme :: distributed_slice (:: rigtest :: registry :: RIG_SSH_CLIENT_CONFIGURATOR)] # [linkme (crate = :: rigtest :: __linkme)] static __RIGTEST_SSH_CLIENT_CONFIGURATOR : :: rigtest :: registry :: SshClientConfiguratorEntry = :: rigtest :: registry :: SshClientConfiguratorEntry :: new ("@, args.ssh_client);
    let c = entry_text("# [:: rigtest :: __linkme :: distributed_slice (:: rigtest :: registry :: RIG_DEFAULT_TIMEOUT)] # [linkme (crate = :: rigtest :: __linkme)] static __RIGTEST_DEFAULT_TIMEOUT : :: rigtest :: registry :: DefaultTimeoutEntry = :: rigtest :: registry :: DefaultTimeoutEntry :: new ("@, args.default_timeout);
    let text = main_text(args);
    assert(text == m + a + " "@ + b + " "@ + c);
    lemma_main_pieces(m, a, " "@, b, c);
    assert(text.take(m.len() as int) =~= m);
}

proof fn lemma_main_pieces(m: Seq<char>, a: Seq<char>, s: Seq<char>, b: Seq<char>, c: Seq<char>)
    ensures
        text::contains(m + a + s + b + s + c, a),
        text::contains(m + a + s + b + s + c, b),
        text::contains(m + a + s + b + s + c, c),
        a.len() == 0 && b.len() == 0 && c.len() == 0 ==> m + a + s + b + s + c == m + s + s,
{
    let none: Seq<char> = seq![];
    let all = m + a + s + b + s + c;
    lemma_stands(m, a, s + b + s + c);
    assert(m + a + (s + b + s + c) =~= all);
    lemma_stands(m + a + s, b, s + c);
    assert(m + a + s + b + (s + c) =~= all);
    lemma_stands(m + a + s + b + s, c, none);
    assert(m + a + s + b + s + c + none =~= all);
    if a.len() == 0 && b.len() == 0 && c.len() == 0 {
        assert(all =~= m + s + s);
    }
}

/// The attribute of `main` takes a function of that name that takes nothing
/// and does nothing, and refuses any other.
pub proof fn law_what_main_may_be(name: Seq<char>, params: nat, statements: nat)
    ensures
        main_error(name, params, statements) is None <==> name == "main"@ && params == 0
            && statements == 0,
{
}

/// A suite's teardown is registered exactly where the function takes one value
/// and is no method; its setup is registered whatever the function takes.
pub proof fn law_which_functions_are_registered(item: Seq<char>)
    ensures
        global_teardown_in(item) is Ok <==> (function::function_in(item) matches Ok(f)
            && f.params.len() == 1 && !(f.params[0] is Receiver)),
        global_setup_in(item) is Ok <==> function::function_in(item) is Ok,
        function::function_in(item) is Ok && global_teardown_in(item) is Err
            ==> global_teardown_in(item)->Err_0.at == Place::CallSite,
        global_teardown_in(item) is Ok ==> global_teardown_in(item)->Ok_0 == teardown_registration(
            function::function_in(item)->Ok_0.name,
            function::function_in(item)->Ok_0.params[0]->ty,
        ),
{
}

/// `#[preflight]` is expanded exactly where it has no arguments, and stands on
/// a function that is not `async`, returns `Preflight` and takes nothing or one
/// `&str`.
pub proof fn law_readiness_function_of_an_item(attr: Seq<char>, item: Seq<char>)
    ensures
        preflight_in(attr, item) is Ok <==> {
            &&& attr.len() == 0
            &&& function::function_in(item) matches Ok(f)
            &&& !f.is_async
            &&& f.output is Some
            &&& types::preflight_type(f.output->0)
            &&& f.params.len() == 0 || (f.params.len() == 1 && f.params[0] is Typed
                && types::str_ref(f.params[0]->ty))
        },
        attr.len() > 0 ==> preflight_in(attr, item)->Err_0.at == Place::Arguments,
{
}

/// `#[rigtest::main]` is expanded exactly where nothing is wrong with the
/// function under it and all its arguments are known.
pub proof fn law_main_of_an_item(attr: Seq<char>, item: Seq<char>)
    ensures
        main_in(attr, item) is Ok <==> {
            &&& function::function_in(item) matches Ok(f)
            &&& main_error(f.name, f.inputs.len(), f.statements as nat) is None
            &&& syntax::metas_in(attr) matches Ok(metas)
            &&& main_args_of(metas) is Ok
        },
        function::function_in(item) matches Err(e) ==> main_in(attr, item)->Err_0.at
            == Place::UnreadItem,
{
}

/// `#[fixture]` takes what it tears down with from its arguments, and the
/// errors of that from the type that the function returns.
pub proof fn law_fixture_of_an_item(attr: Seq<char>, item: Seq<char>)
    ensures
        fixture_in(attr, item) is Ok ==> teardown_in(attr) is Ok && function::function_in(item) is Ok,
        syntax::metas_in(attr) is Err ==> teardown_in(attr) is Err,
        function::function_in(item) is Ok && teardown_in(attr) is Ok ==> fixture_in(attr, item)
            == fixture_of(
            function::function_in(item)->Ok_0,
            err_of(function::function_in(item)->Ok_0.output),
            teardown_of(syntax::metas_in(attr)->Ok_0)->Ok_0,
        ),
{
}

} // verus!
