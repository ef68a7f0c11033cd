use rigtest::attributes::{fixture, global_setup, global_teardown, main_function, preflight};
use rigtest::cases::{classify_params, extract_case_rows, validate_case_shape};
use rigtest::function::{read_function, Place};
use rigtest::plan::{plan, sanitize_value, value_index_tuples, ArgSource, TestcasePlan};
use rigtest::registration::{expand, generate, wrap_fixtures};
use rigtest::syntax::TokenText;
use rigtest::testcase::{parse_spec, split_args, Arg, SerialMode};
use rigtest::types::{
    err_type_is_unmatchable, param_is_str_ref, result_err_type, return_type_is_preflight,
    type_is_arc_test_context, type_is_box_dyn_error,
};

fn plan_of(attr: &str, item: &str) -> TestcasePlan {
    let func = read_function(item).expect("parse fn");
    let spec = parse_spec(attr).expect("parse spec");
    let (rows, _) = extract_case_rows(&func.attrs).expect("case rows");
    let (kinds, _) = classify_params(&func.params).expect("classify");
    assert!(validate_case_shape(&rows, &kinds).is_none(), "shape");
    plan(spec, &kinds, &rows, &func.name)
}

fn names(plan: &TestcasePlan) -> Vec<&str> {
    plan.cases.iter().map(|c| c.name.as_str()).collect()
}

fn render_of(attr: &str, item: &str) -> String {
    let func = read_function(item).expect("parse fn");
    generate(&func.name, &plan_of(attr, item))
}

fn registered(attr: &str, item: &str) -> String {
    expand(attr, item).expect("expand").registrations
}

fn refused(attr: &str, item: &str) -> String {
    match expand(attr, item) {
        Err(d) => d.message,
        Ok(e) => panic!("expected an error, got {}", e.registrations),
    }
}

#[test]
fn single_case_is_unsuffixed_with_bare_ctx() {
    let plan = plan_of("", "async fn plain(_ctx: Arc<TestContext>) -> Result<(), E> { Ok(()) }");
    assert_eq!(plan.cases.len(), 1);
    let case = &plan.cases[0];
    assert_eq!(case.name, "plain");
    assert_eq!(case.static_ident, "__RIGTEST_TESTCASE_PLAIN");
    assert!(plan.fixtures.is_empty());
    assert_eq!(case.args.len(), 1);
    assert!(matches!(case.args[0], ArgSource::Ctx));
}

#[test]
fn values_product_names_and_sources() {
    let plan = plan_of(
        "",
        "async fn method_status(\
            _ctx: Arc<TestContext>,\
            #[values(\"GET\", \"POST\")] method: &str,\
            #[values(200, 404)] status: u16,\
         ) -> Result<(), E> { Ok(()) }",
    );
    assert_eq!(
        names(&plan),
        vec![
            "method_status::case_1_GET_200",
            "method_status::case_2_GET_404",
            "method_status::case_3_POST_200",
            "method_status::case_4_POST_404",
        ]
    );
    let render = |a: &ArgSource| match a {
        ArgSource::Values(e) => e.clone(),
        ArgSource::Ctx => "ctx".to_string(),
        _ => "other".to_string(),
    };
    let first: Vec<String> = plan.cases[0].args.iter().map(render).collect();
    assert_eq!(first, vec!["ctx", "\"GET\"", "200"]);
    let last: Vec<String> = plan.cases[3].args.iter().map(render).collect();
    assert_eq!(last, vec!["ctx", "\"POST\"", "404"]);
}

#[test]
fn case_times_values_product() {
    let plan = plan_of(
        "",
        "#[case::lo(1u32)]\
         #[case::hi(10u32)]\
         async fn ct(\
            _ctx: Arc<TestContext>,\
            #[case] base: u32,\
            #[values(\"x\", \"y\")] tag: &str,\
         ) -> Result<(), E> { Ok(()) }",
    );
    assert_eq!(
        names(&plan),
        vec!["ct::case_1_lo_x", "ct::case_2_lo_y", "ct::case_3_hi_x", "ct::case_4_hi_y"]
    );
    let args = &plan.cases[1].args;
    assert!(matches!(args[0], ArgSource::Ctx));
    assert!(matches!(&args[1], ArgSource::Case(e) if e == "1u32"));
    assert!(matches!(&args[2], ArgSource::Values(e) if e == "\"y\""));
}

#[test]
fn fixture_param_is_classified_and_listed() {
    let plan = plan_of(
        "",
        "async fn f(_ctx: Arc<TestContext>, answer: u32) -> Result<(), E> { Ok(()) }",
    );
    assert_eq!(plan.fixtures.len(), 1);
    assert_eq!(plan.fixtures[0], "answer");
    let case = &plan.cases[0];
    assert_eq!(case.name, "f");
    assert!(matches!(&case.args[1], ArgSource::Fixture(id) if id == "answer"));
}

#[test]
fn flag_parsing() {
    let group = parse_spec("serial = \"db\"").unwrap();
    assert!(matches!(group.serial, SerialMode::Group { ref value, .. } if value == "db"));

    let nt = parse_spec("no_timeout").unwrap();
    assert!(nt.no_timeout);
    assert!(nt.timeout.is_none());

    let to = parse_spec("timeout = Duration::from_secs(5)").unwrap();
    assert!(to.timeout.is_some());
    assert!(!to.no_timeout);

    assert!(parse_spec("no_timeout, timeout = D").is_err());
}

#[test]
fn generate_clones_ctx_only_with_fixtures() {
    let plain = render_of("", "async fn plain(ctx: Arc<TestContext>) -> Result<(), E> { Ok(()) }");
    assert!(
        !plain.contains("Arc :: clone"),
        "bare ctx expected without fixtures, got: {plain}"
    );

    let with_fixture = render_of(
        "",
        "async fn uses_fix(ctx: Arc<TestContext>, db: Db) -> Result<(), E> { Ok(()) }",
    );
    assert!(
        with_fixture.contains("Arc :: clone"),
        "expected Arc::clone when a fixture is present, got: {with_fixture}"
    );
}

// ── #[case] ─────────────────────────────────────────────────────────────────

const ADDS_PAIR: &str = "#[case(1u32, 2u32, 3u32)]
#[case(10u32, 20u32, 30u32)]
async fn adds_pair(
    _ctx: Arc<TestContext>,
    #[case] a: u32,
    #[case] b: u32,
    #[case] sum: u32,
) -> Result<(), BoxError> {
    assert_eq!(a + b, sum);
    Ok(())
}";

#[test]
fn plain_testcase_registers_exactly_once() {
    let item =
        "async fn plain_testcase_still_registers(_ctx: Arc<TestContext>) -> Result<(), BoxError> { Ok(()) }";
    let count = names(&plan_of("", item))
        .iter()
        .filter(|n| **n == "plain_testcase_still_registers")
        .count();
    assert_eq!(count, 1);
    assert_eq!(registered("", item).matches("RIG_TEST_CASES").count(), 1);
}

#[test]
fn parametrized_rows_register_one_case_per_row() {
    let plan = plan_of("", ADDS_PAIR);
    let names = names(&plan);
    assert!(names.contains(&"adds_pair::case_1"), "names: {names:?}");
    assert!(names.contains(&"adds_pair::case_2"), "names: {names:?}");
    assert_eq!(names.len(), 2, "names: {names:?}");
    let text = registered("", ADDS_PAIR);
    assert_eq!(text.matches("RIG_TEST_CASES").count(), 2);
    assert!(text.contains("adds_pair (ctx , 1u32 , 2u32 , 3u32)"), "{text}");
    assert!(text.contains("adds_pair (ctx , 10u32 , 20u32 , 30u32)"), "{text}");
}

#[test]
fn labelled_rows_produce_indexed_suffixed_names() {
    let plan = plan_of(
        "",
        "#[case::small(\"alice\")]
        #[case(\"bob\")]
        #[case::with_dash_label(\"carol\")]
        async fn name_is_non_empty(_ctx: Arc<TestContext>, #[case] user: &str) -> Result<(), BoxError> {
            assert!(!user.is_empty());
            Ok(())
        }",
    );
    let names = names(&plan);
    assert!(names.contains(&"name_is_non_empty::case_1_small"));
    assert!(names.contains(&"name_is_non_empty::case_2"));
    assert!(names.contains(&"name_is_non_empty::case_3_with_dash_label"));
    assert_eq!(names.len(), 3, "names: {names:?}");
}

#[test]
fn generated_cases_inherit_module_and_file_metadata() {
    let text = registered("", ADDS_PAIR);
    let start = text.find("\"adds_pair::case_1\"").expect("case_1 registered");
    assert!(
        text[start..].starts_with(
            "\"adds_pair::case_1\" , module_path ! () , file ! () , false , None , None , false , 0u32 , false , "
        ),
        "{}",
        &text[start..]
    );
}

// ── #[values] ───────────────────────────────────────────────────────────────

const METHOD_STATUS: &str = "async fn method_status(
    _ctx: Arc<TestContext>,
    #[values(\"GET\", \"POST\", \"PUT\")] method: &str,
    #[values(200, 404)] status: u16,
) -> Result<(), BoxError> {
    assert!(!method.is_empty());
    assert!(status >= 200);
    Ok(())
}";

#[test]
fn single_values_registers_one_case_per_value() {
    let plan = plan_of(
        "",
        "async fn single_values(
            _ctx: Arc<TestContext>,
            #[values(\"a\", \"b\", \"c\")] tag: &str,
        ) -> Result<(), BoxError> {
            assert!(!tag.is_empty());
            Ok(())
        }",
    );
    let names = names(&plan);
    assert!(names.contains(&"single_values::case_1_a"), "names: {names:?}");
    assert!(names.contains(&"single_values::case_2_b"), "names: {names:?}");
    assert!(names.contains(&"single_values::case_3_c"), "names: {names:?}");
    assert_eq!(names.len(), 3, "names: {names:?}");
}

#[test]
fn values_product_registers_every_combination() {
    let plan = plan_of("", METHOD_STATUS);
    let names = names(&plan);
    for expected in [
        "method_status::case_1_GET_200",
        "method_status::case_2_GET_404",
        "method_status::case_3_POST_200",
        "method_status::case_4_POST_404",
        "method_status::case_5_PUT_200",
        "method_status::case_6_PUT_404",
    ] {
        assert!(names.contains(&expected), "missing {expected}; names: {names:?}");
    }
    assert_eq!(names.len(), 6, "names: {names:?}");
}

#[test]
fn case_and_values_compose_as_a_product() {
    let plan = plan_of(
        "",
        "#[case::lo(1u32)]
        #[case::hi(10u32)]
        async fn case_times_values(
            _ctx: Arc<TestContext>,
            #[case] base: u32,
            #[values(\"x\", \"y\")] tag: &str,
        ) -> Result<(), BoxError> {
            assert!(base >= 1);
            assert!(!tag.is_empty());
            Ok(())
        }",
    );
    let names = names(&plan);
    for expected in [
        "case_times_values::case_1_lo_x",
        "case_times_values::case_2_lo_y",
        "case_times_values::case_3_hi_x",
        "case_times_values::case_4_hi_y",
    ] {
        assert!(names.contains(&expected), "missing {expected}; names: {names:?}");
    }
    assert_eq!(names.len(), 4, "names: {names:?}");
}

#[test]
fn generated_values_cases_inherit_metadata() {
    let text = registered("", METHOD_STATUS);
    let start = text.find("\"method_status::case_1_GET_200\"").expect("case_1 registered");
    assert!(
        text[start..].starts_with(
            "\"method_status::case_1_GET_200\" , module_path ! () , file ! () , false , None , None , false , 0u32 , false , "
        ),
        "{}",
        &text[start..]
    );
}

// ── retry_on_error ──────────────────────────────────────────────────────────

#[test]
fn matcher_sets_retry_on_error_set_flag() {
    let plan = plan_of(
        "retries = 2, retry_on_error = DemoError::Transient",
        "async fn retries_on_transient(_ctx: Arc<TestContext>) -> Result<(), DemoError> { Ok(()) }",
    );
    assert!(
        plan.spec.retry_on_error.is_some(),
        "retry_on_error = … must register retry_on_error_set: true"
    );
    assert_eq!(plan.spec.retries.as_deref(), Some("2"));
    let text = registered(
        "retries = 2, retry_on_error = DemoError::Transient",
        "async fn retries_on_transient(_ctx: Arc<TestContext>) -> Result<(), DemoError> { Ok(()) }",
    );
    assert!(text.contains(" , false , 2 , true , "), "{text}");
}

#[test]
fn alternatives_and_guards_compile_into_registration() {
    let plan = plan_of(
        "retry_on_error = DemoError::Transient | DemoError::Fatal(_)",
        "async fn retries_on_either_variant(_ctx: Arc<TestContext>) -> Result<(), DemoError> { Ok(()) }",
    );
    assert_eq!(plan.cases[0].name, "retries_on_either_variant");
    assert!(plan.spec.retry_on_error.is_some());
}

#[test]
fn no_matcher_leaves_flag_false() {
    let plan = plan_of(
        "",
        "async fn plain_no_matcher(_ctx: Arc<TestContext>) -> Result<(), BoxError> { Ok(()) }",
    );
    assert_eq!(plan.cases[0].name, "plain_no_matcher");
    assert!(plan.spec.retry_on_error.is_none());
}

#[test]
fn retry_on_error_needs_a_named_error_type() {
    for (output, part) in [
        ("", "no return type"),
        (" -> u32", "named error type"),
        (" -> Result<(), Box<dyn std::error::Error + Send + Sync>>", "boxed trait object"),
    ] {
        let item = format!("async fn f(_ctx: Arc<TestContext>){output} {{ todo() }}");
        let message = refused("retry_on_error = E::A", &item);
        assert!(message.contains(part), "{output}: {message}");
    }
}

// ── serial ──────────────────────────────────────────────────────────────────

#[test]
fn bare_serial_sets_exclusive_flag_and_no_group() {
    let item = "async fn bare_serial_case(_ctx: Arc<TestContext>) -> Result<(), BoxError> { Ok(()) }";
    assert!(matches!(plan_of("serial", item).spec.serial, SerialMode::Exclusive));
    let text = registered("serial", item);
    assert!(
        text.contains("file ! () , true , None , "),
        "{text}"
    );
}

#[test]
fn named_serial_sets_group_and_is_not_exclusive() {
    let item =
        "async fn grouped_serial_case(_ctx: Arc<TestContext>) -> Result<(), BoxError> { Ok(()) }";
    assert!(matches!(
        plan_of("serial = \"db\"", item).spec.serial,
        SerialMode::Group { ref value, .. } if value == "db"
    ));
    let text = registered("serial = \"db\"", item);
    assert!(
        text.contains("file ! () , false , Some (\"db\") , "),
        "{text}"
    );
}

#[test]
fn attribute_arguments_are_checked() {
    for (attr, part) in [
        ("serial = 3", "`serial` group must be a string literal"),
        ("tags = \"smoke\"", "`tags` must be an array literal"),
        ("tags = [1]", "`tags` entries must be string literals"),
        ("tags = [\"\"]", "`tags` entries must not be empty"),
        ("tags = [\"a b\"]", "`tags` entries must not contain whitespace"),
    ] {
        let d = parse_spec(attr).unwrap_err();
        assert!(d.message.contains(part), "{attr}: {}", d.message);
    }
    let ignored = parse_spec("surprise, serial(3), other = 1").unwrap();
    assert!(matches!(ignored.serial, SerialMode::Shared));
    let spec = parse_spec("tags = [\"smoke\", \"slow\"], retries = 4").unwrap();
    let tags: Vec<&str> = spec.tags.iter().map(|t| t.1.as_str()).collect();
    assert_eq!(tags, vec!["smoke", "slow"]);
    assert_eq!(spec.retries.as_deref(), Some("4"));
}

#[test]
fn parameters_are_checked() {
    for (item, part) in [
        ("async fn f(&self) {}", "cannot take a `self` parameter"),
        (
            "async fn f(#[case] #[values(1)] x: u32) {}",
            "cannot be tagged with both #[case] and #[values]",
        ),
        (
            "async fn f(a: Arc<TestContext>, b: Arc<TestContext>) {}",
            "at most one `Arc<TestContext>`",
        ),
        ("async fn f((a, b): (u32, u32)) {}", "must be a plain identifier"),
        ("async fn f(#[values()] x: u32) {}", "must list at least one value"),
        ("#[case(1)] async fn f() {}", "no function parameter is tagged with #[case]"),
        ("async fn f(#[case] x: u32) {}", "no #[case(...)] rows"),
        (
            "#[case(1)] #[case(1, 2)] async fn f(#[case] x: u32) {}",
            "#[case(...)] has 2 value(s) but the function has 1",
        ),
    ] {
        let message = refused("", item);
        assert!(message.contains(part), "{item}: {message}");
    }
    assert!(expand("", "struct NotAFunction;").is_err());
}

#[test]
fn expansion_keeps_foreign_attributes() {
    let e = expand(
        "",
        "#[allow(dead_code)] #[case(1)] #[doc = \"x\"] async fn f(#[case] #[allow(unused)] x: u32, c: Arc<TestContext>) {}",
    )
    .unwrap();
    assert_eq!(e.kept_attrs, vec![0, 2]);
    assert_eq!(e.kept_param_attrs, vec![vec![1], vec![]]);
}

#[test]
fn value_tuples_run_through_the_product_last_one_fastest() {
    assert_eq!(
        value_index_tuples(&vec![2, 3]),
        vec![
            vec![0, 0],
            vec![0, 1],
            vec![0, 2],
            vec![1, 0],
            vec![1, 1],
            vec![1, 2],
        ]
    );
    assert_eq!(value_index_tuples(&vec![]), vec![Vec::<usize>::new()]);
    assert_eq!(value_index_tuples(&vec![2, 0]), Vec::<Vec<usize>>::new());
}

#[test]
fn values_are_sanitized_for_names() {
    assert_eq!(sanitize_value("\"GET\""), "GET");
    assert_eq!(sanitize_value("20u32"), "20u32");
    assert_eq!(sanitize_value("Some(1)"), "Some1");
}

#[test]
fn case_names_are_distinct() {
    let plan = plan_of("", "async fn f(#[values(\"a-b\", \"ab\", \"a b\")] x: &str) {}");
    let names = names(&plan);
    assert_eq!(names, vec!["f::case_1_ab", "f::case_2_ab", "f::case_3_ab"]);
    let idents: Vec<&str> = plan.cases.iter().map(|c| c.static_ident.as_str()).collect();
    assert_ne!(idents[0], idents[1]);
    assert_ne!(idents[1], idents[2]);
}

// ── fixtures ────────────────────────────────────────────────────────────────

#[test]
fn fixture_tests_register() {
    let items = [
        "async fn receives_fixture_value(_ctx: Arc<TestContext>, answer: u32) -> Result<(), BoxError> { Ok(()) }",
        "async fn receives_two_fixtures(_ctx: Arc<TestContext>, answer: u32, greeting: String) -> Result<(), BoxError> { Ok(()) }",
        "async fn uses_cross_module_fixture(_ctx: Arc<TestContext>, remote_fixture: &'static str) -> Result<(), BoxError> { Ok(()) }",
        "#[case(1)] #[case(2)] async fn case_with_fixture(_ctx: Arc<TestContext>, #[case] n: u32, answer: u32) -> Result<(), BoxError> { Ok(()) }",
        "async fn values_with_fixture(_ctx: Arc<TestContext>, #[values(10u32, 20u32)] n: u32, answer: u32) -> Result<(), BoxError> { Ok(()) }",
    ];
    let plans: Vec<TestcasePlan> = items.iter().map(|item| plan_of("", item)).collect();
    for name in [
        "receives_fixture_value",
        "receives_two_fixtures",
        "uses_cross_module_fixture",
        "case_with_fixture::case_1",
        "case_with_fixture::case_2",
        "values_with_fixture::case_1_10u32",
        "values_with_fixture::case_2_20u32",
    ] {
        let count = plans
            .iter()
            .flat_map(|plan| plan.cases.iter())
            .filter(|case| case.name == name)
            .count();
        assert_eq!(count, 1, "{name} must register exactly once");
    }
    assert!(plans.iter().all(|plan| plan.fixtures.iter().any(|f| f == "answer" || f == "remote_fixture")));
}

#[test]
fn generated_wrapper_orders_setup_body_teardown() {
    let text = registered(
        "",
        "async fn wrap_target(_ctx: Arc<TestContext>, wrap_a: i32, wrap_b: i32) -> Result<(), BoxError> { Ok(()) }",
    );
    let at = |part: &str| text.find(part).unwrap_or_else(|| panic!("{part} missing in {text}"));
    let events = [
        at("wrap_a :: __rigtest_fixture_setup"),
        at("wrap_b :: __rigtest_fixture_setup"),
        at("wrap_target ("),
        at("wrap_b :: __rigtest_fixture_teardown"),
        at("wrap_a :: __rigtest_fixture_teardown"),
    ];
    assert!(
        events.windows(2).all(|w| w[0] < w[1]),
        "fixtures set up left-to-right, torn down LIFO around the body: {text}"
    );
}

#[test]
fn fixture_becomes_a_type_with_setup_and_teardown() {
    let text = fixture(
        "teardown = teardown_first",
        "pub async fn first(_ctx: Arc<TestContext>) -> Result<First, BoxError> { Ok(First) }",
    )
    .unwrap();
    assert!(text.contains("pub struct first { }"), "{text}");
    assert!(text.contains("__rigtest_fixture_setup"), "{text}");
    assert!(text.contains("teardown_first (ctx) . await"), "{text}");
    let text = fixture("", "async fn greeting() -> Result<String, BoxError> { Ok(s()) }").unwrap();
    assert!(text.contains("_ctx : :: std :: sync :: Arc"), "{text}");
    assert!(text.contains(":: core :: result :: Result :: Ok (())"), "{text}");
}

#[test]
fn fixture_functions_are_checked() {
    for (attr, item, part) in [
        ("", "fn f() -> Result<u32, E> { Ok(1) }", "must be `async`"),
        ("", "async fn f() {}", "must return `Result<T, E>`"),
        ("", "async fn f(x: u32) -> Result<u32, E> { Ok(1) }", "must be `Arc<TestContext>`"),
        (
            "",
            "async fn f(a: Arc<TestContext>, b: u32) -> Result<u32, E> { Ok(1) }",
            "at most one parameter",
        ),
        ("", "async fn f(&self) -> Result<u32, E> { Ok(1) }", "`self` parameter"),
        ("other = x", "async fn f() -> Result<u32, E> { Ok(1) }", "unknown argument"),
    ] {
        let d = fixture(attr, item).unwrap_err();
        assert!(d.message.contains(part), "{item}: {}", d.message);
    }
}

// ── other attributes ────────────────────────────────────────────────────────

#[test]
fn preflight_macro_registers_exactly_one_entry() {
    let text = preflight("", "fn preflight() -> Preflight { Preflight::new() }").unwrap();
    assert_eq!(
        text.matches("RIG_PREFLIGHT").count(),
        1,
        "exactly one #[preflight] should be registered"
    );
    assert!(text.contains("static __RIGTEST_PREFLIGHT_PREFLIGHT "), "{text}");
    assert!(text.contains("preflight ()) as fn"), "{text}");
    let text = preflight("", "fn ready(env: &str) -> Preflight { build(env) }").unwrap();
    assert!(text.ends_with(":: new (ready) ;"), "{text}");
}

#[test]
fn preflight_functions_are_checked() {
    for (attr, item, part) in [
        ("x", "fn f() -> Preflight { p() }", "does not accept any arguments"),
        ("", "async fn f() -> Preflight { p() }", "must be synchronous"),
        ("", "fn f() {}", "must return `Preflight`"),
        ("", "fn f() -> u32 { 1 }", "must return `Preflight`"),
        ("", "fn f(a: String) -> Preflight { p() }", "must be `&str` exactly"),
        ("", "fn f(a: &str, b: &str) -> Preflight { p() }", "at most one parameter"),
        ("", "fn f(self) -> Preflight { p() }", "`self` parameter"),
    ] {
        let d = preflight(attr, item).unwrap_err();
        assert!(d.message.contains(part), "{item}: {}", d.message);
    }
}

#[test]
fn global_functions_are_registered_with_their_types() {
    let text = global_setup("async fn setup() -> State { State }").unwrap();
    assert!(text.contains("__RIGTEST_GLOBAL_SETUP"), "{text}");
    assert!(text.contains("downcast_ref :: < State >"), "{text}");
    let text = global_setup("async fn setup() { }").unwrap();
    assert!(text.contains("downcast_ref :: < () >"), "{text}");
    let text = global_teardown("async fn teardown(s: State) { }").unwrap();
    assert!(text.contains("downcast :: < State >"), "{text}");
    let d = global_teardown("async fn teardown() { }").unwrap_err();
    assert_eq!(
        d.message,
        "#[global_teardown] function must have exactly one typed parameter"
    );
}

#[test]
fn main_function_registers_what_it_is_given() {
    let text = main_function("", "fn main() {}").unwrap();
    assert!(text.contains(":: rigtest :: run_main ()"), "{text}");
    assert!(!text.contains("__linkme"), "{text}");
    let text = main_function(
        "http_client = configure, default_timeout = Duration::from_secs(5)",
        "fn main() {}",
    )
    .unwrap();
    assert!(text.contains("HttpClientConfiguratorEntry :: new (configure)"), "{text}");
    assert!(text.contains("__RIGTEST_DEFAULT_TIMEOUT"), "{text}");
    assert!(!text.contains("SSH"), "{text}");
    for (attr, item, part) in [
        ("", "fn start() {}", "named `main`"),
        ("", "fn main(x: u32) {}", "must take no arguments"),
        ("", "fn main() { work(); }", "body must be empty"),
        ("other = x", "fn main() {}", "unknown parameter"),
    ] {
        let d = main_function(attr, item).unwrap_err();
        assert!(d.message.contains(part), "{item}: {}", d.message);
    }
}

// ── types ───────────────────────────────────────────────────────────────────

#[test]
fn types_are_told_by_their_last_names() {
    assert!(type_is_arc_test_context("Arc<TestContext>"));
    assert!(type_is_arc_test_context("std::sync::Arc<rigtest::TestContext>"));
    assert!(!type_is_arc_test_context("Rc<TestContext>"));
    assert!(!type_is_arc_test_context("Arc<Other>"));
    assert!(!type_is_arc_test_context("Arc<TestContext, Other>"));
    assert!(type_is_box_dyn_error("Box<dyn std::error::Error + Send + Sync>"));
    assert!(!type_is_box_dyn_error("Box<dyn std::fmt::Debug>"));
    assert!(!type_is_box_dyn_error("Box<Error>"));
    assert_eq!(result_err_type("Result<(), DemoError>").as_deref(), Some("DemoError"));
    assert_eq!(result_err_type("Result<MyError>").as_deref(), Some("MyError"));
    assert_eq!(result_err_type("Result"), None);
    assert_eq!(result_err_type("Option<u32>"), None);
    assert!(err_type_is_unmatchable("rigtest::Error"));
    for ty in ["Error", "BoxError", "rigtest::BoxError", "Box<dyn Error + Send + Sync>"] {
        assert!(err_type_is_unmatchable(ty), "{ty}");
    }
    for ty in ["DemoError", "std::io::Error", "crate::Error", "T::Error", "<T as U>::Error"] {
        assert!(!err_type_is_unmatchable(ty), "{ty}");
    }
    assert!(param_is_str_ref("&str"));
    assert!(!param_is_str_ref("&mut str") && !param_is_str_ref("String"));
    assert!(return_type_is_preflight("rigtest::Preflight"));
    assert!(!return_type_is_preflight("Vec<Preflight>"));
}

// ── the argument list of a test ─────────────────────────────────────────────

#[test]
fn error_pattern_takes_alternatives_and_a_guard() {
    for (attr, pattern) in [
        ("retry_on_error = E::A", "E :: A"),
        ("retry_on_error = E::A | E::B(_)", "E :: A | E :: B (_)"),
        ("retry_on_error = | E::A | E::B", "| E :: A | E :: B"),
        ("retry_on_error = E::A if true", "E :: A if true"),
        ("retry_on_error = E::A(n) if *n < 3", "E :: A (n) if * n < 3"),
        ("retry_on_error = e @ E::A(_)", "e @ E :: A (_)"),
        ("retry_on_error = E::A { code: 500..=599, .. }", "E :: A { code : 500 ..= 599 , .. }"),
        ("retry_on_error = _", "_"),
        ("retry_on_error = E::A(n) if f::<u8, u16>(n)", "E :: A (n) if f :: < u8 , u16 > (n)"),
    ] {
        let alone = parse_spec(attr).unwrap();
        assert_eq!(alone.retry_on_error.as_deref(), Some(pattern), "{attr}");
        let first = parse_spec(&format!("{attr}, retries = 3, serial,")).unwrap();
        assert_eq!(first.retry_on_error.as_deref(), Some(pattern), "{attr}");
        assert_eq!(first.retries.as_deref(), Some("3"), "{attr}");
        assert!(matches!(first.serial, SerialMode::Exclusive), "{attr}");
        let last = parse_spec(&format!("retries = 3, {attr}")).unwrap();
        assert_eq!(last.retry_on_error.as_deref(), Some(pattern), "{attr}");
        assert_eq!(last.retries.as_deref(), Some("3"), "{attr}");
    }
}

#[test]
fn guard_reaches_the_generated_matcher() {
    let text = registered(
        "retries = 2, retry_on_error = E::A(n) if *n < 3",
        "async fn guarded() -> Result<(), E> { Ok(()) }",
    );
    assert!(text.contains("matches ! (& __rigtest_err , E :: A (n) if * n < 3) ;"), "{text}");
}

#[test]
fn unreadable_argument_lists_say_nothing() {
    for attr in [
        "retries =",
        "retries 3",
        ", retries = 3",
        "retries = 3,, serial",
        "retries = )",
        "serial serial",
        "retries = 3, retry_on_error = E::A if",
        "retries = 3, retry_on_error = #[x] E::A",
        "retries = 3, retry_on_error = ",
    ] {
        let spec = parse_spec(attr).unwrap();
        assert!(matches!(spec.serial, SerialMode::Shared), "{attr}");
        assert!(spec.retries.is_none() && spec.retry_on_error.is_none(), "{attr}");
    }
}

#[test]
fn values_that_are_no_patterns_are_errors() {
    for attr in ["retry_on_error = 1 + 2", "retry_on_error = *x"] {
        let d = parse_spec(attr).unwrap_err();
        assert!(d.message.starts_with("`retry_on_error` must be a pattern"), "{attr}");
        assert_eq!(d.at, Place::UnreadPattern(0));
    }
    let d = parse_spec("serial, retry_on_error = 1 + 2, retries = 3").unwrap_err();
    assert_eq!(
        d.message,
        "`retry_on_error` must be a pattern, the same syntax accepted by `matches!`: unexpected token"
    );
    assert_eq!(d.at, Place::UnreadPattern(1));
    let d = parse_spec("tags = 3, retry_on_error = 1 + 2").unwrap_err();
    assert_eq!(d.at, Place::Value(0));
}

#[test]
fn diagnostics_point_at_what_is_wrong() {
    let at = |attr: &str| parse_spec(attr).unwrap_err().at;
    assert_eq!(at("retries = 1, serial = db"), Place::Value(1));
    assert_eq!(at("tags = \"smoke\""), Place::Value(0));
    assert_eq!(at("tags = [\"a\", 3]"), Place::Element(0, 1));
    assert_eq!(at("serial, tags = [\"\"]"), Place::Element(1, 0));
    assert_eq!(at("no_timeout, timeout = D"), Place::CallSite);
    let of = |item: &str| expand("", item).unwrap_err().at;
    assert_eq!(of("async fn t("), Place::UnreadItem);
    assert_eq!(of("async fn t(a: A, #[x] #[values()] n: u8) { }"), Place::ParamAttribute(1, 1));
    assert_eq!(of("async fn t(#[values(1 +)] n: u8) { }"), Place::UnreadParamAttribute(0, 0));
    assert_eq!(of("async fn t(a: A, (b, c): B) { }"), Place::ParamPattern(1));
    assert_eq!(of("async fn t(#[case] #[values(1)] n: u8) { }"), Place::Param(0));
    assert_eq!(of("#[x] #[case(1 +)] async fn t(#[case] n: u8) { }"), Place::UnreadAttribute(1));
    assert_eq!(of("#[x] #[case(1)] async fn t() { }"), Place::Attribute(1));
    let matched = |item: &str| expand("retry_on_error = _", item).unwrap_err().at;
    assert_eq!(matched("async fn t() { }"), Place::Signature);
    assert_eq!(matched("async fn t() -> u8 { }"), Place::Output);
    assert_eq!(matched("async fn t() -> Result<(), BoxError> { }"), Place::ErrorType);
    let probes = |attr: &str, item: &str| preflight(attr, item).unwrap_err().at;
    assert_eq!(probes("x", "fn p() -> Preflight { }"), Place::Arguments);
    assert_eq!(probes("", "async fn p() -> Preflight { }"), Place::Async);
    assert_eq!(probes("", "fn p() -> u8 { }"), Place::Output);
    assert_eq!(fixture("a b", "async fn f() -> Result<T, E> { }").unwrap_err().at, Place::UnreadArguments);
    assert_eq!(fixture("a", "async fn f() -> Result<T, E> { }").unwrap_err().at, Place::Argument(0));
    assert_eq!(main_function("a b", "fn main() { }").unwrap_err().at, Place::UnreadArguments);
    assert_eq!(global_teardown("async fn t() { }").unwrap_err().at, Place::CallSite);
    assert_eq!(global_setup("fn").unwrap_err().at, Place::UnreadItem);
}

#[test]
fn commas_between_angle_brackets_end_no_argument() {
    let spec = parse_spec("timeout = span::<u8, u16>(3), retries = 2").unwrap();
    assert_eq!(spec.timeout.as_deref(), Some("span :: < u8 , u16 > (3)"));
    assert_eq!(spec.retries.as_deref(), Some("2"));
    let none = parse_spec("").unwrap();
    assert!(none.timeout.is_none() && none.retries.is_none());
}

#[test]
fn tokens_are_split_into_arguments() {
    let tokens = vec![
        TokenText::Word("retry_on_error".to_string()),
        TokenText::Mark { mark: '=', joint: false },
        TokenText::Word("E".to_string()),
        TokenText::Mark { mark: ':', joint: true },
        TokenText::Mark { mark: ':', joint: false },
        TokenText::Word("A".to_string()),
        TokenText::Mark { mark: ',', joint: false },
        TokenText::Word("retries".to_string()),
        TokenText::Mark { mark: '=', joint: false },
        TokenText::Other("3".to_string()),
    ];
    let args = split_args(tokens).unwrap();
    assert_eq!(args.len(), 2);
    assert!(matches!(&args[0], Arg::RetryOnError { pattern: Ok(p) } if p == "E :: A"));
    assert!(matches!(&args[1], Arg::Assign { name, value } if name == "retries" && value.text == "3"));
}

#[test]
fn running_alone_wins_over_a_group() {
    for attr in ["serial, serial = \"db\"", "serial = \"db\", serial"] {
        assert!(matches!(parse_spec(attr).unwrap().serial, SerialMode::Exclusive), "{attr}");
    }
}

// ── fixtures ────────────────────────────────────────────────────────────────

#[test]
fn failed_teardown_does_not_leave_the_wrapper() {
    let text = wrap_fixtures("body () . await", &vec!["a".to_string(), "b".to_string()]);
    let at = |part: &str| text.find(part).unwrap_or_else(|| panic!("{part}: {text}"));
    let setup_a = at("a :: __rigtest_fixture_setup");
    let setup_b = at("b :: __rigtest_fixture_setup");
    let body = at("body () . await");
    let teardown_b = at("b :: __rigtest_fixture_teardown");
    let teardown_a = at("a :: __rigtest_fixture_teardown");
    assert!(setup_a < setup_b && setup_b < body && body < teardown_b && teardown_b < teardown_a);
    assert_eq!(text.matches(" ? ;").count(), 2);
    assert_eq!(text[body..].matches('?').count(), 0);
    assert_eq!(text[body..].matches("__rigtest_teardown_result . map_err").count(), 2);
    assert!(syn::parse_str::<syn::Expr>(&format!("async {{ {text} }}")).is_ok(), "{text}");
}

#[test]
fn fixture_names_both_types_of_its_result() {
    let d = fixture("", "async fn f() -> Result<E> { x }").unwrap_err();
    assert!(d.message.contains("must return `Result<T, E>`"));
    assert!(fixture("", "async fn f() -> Result<T, E> { x }").is_ok());
}

#[test]
fn global_teardown_takes_exactly_one_parameter() {
    for item in [
        "async fn teardown() { }",
        "async fn teardown(a: A, b: B) { }",
        "async fn teardown(self) { }",
    ] {
        let d = global_teardown(item).unwrap_err();
        assert_eq!(
            d.message, "#[global_teardown] function must have exactly one typed parameter",
            "{item}"
        );
    }
    let text = global_teardown("async fn teardown(_: State) { }").unwrap();
    assert!(text.contains("downcast :: < State >"), "{text}");
}
