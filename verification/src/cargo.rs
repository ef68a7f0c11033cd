//! The `cargo rigtest run` command: what it builds, which test programs it
//! runs and with what arguments, and what it comes to.

use crate::text;
use crate::types;
use vstd::prelude::*;
use vstd::string::*;

verus! {

// ── JSON ────────────────────────────────────────────────────────────────────

/// What a JSON value holds.
pub enum Json {
    Null,
    Bool(bool),
    /// A number, by its text.
    Number(Seq<char>),
    Str(Seq<char>),
    Array(Seq<Json>),
    /// An object, by its keys.
    Object(Map<Seq<char>, Json>),
}

/// A parsed JSON value.
#[verifier::external_type_specification]
#[verifier::external_body]
pub struct ExValue(serde_json::Value);

/// What a parsed JSON value holds.
pub uninterp spec fn json_of(value: serde_json::Value) -> Json;

/// The value that `serde_json` reads in a text, if it reads one.
pub uninterp spec fn json_in(text: Seq<char>) -> Option<Json>;

/// `serde_json::from_str`, with any error dropped. Whether the text is JSON,
/// and what it then holds, is a function of the text; the grammar is not
/// stated.
#[verifier::external_body]
fn parse_json(text: &str) -> (r: Option<serde_json::Value>)
    ensures
        match r {
            Some(value) => json_in(text@) == Some(json_of(value)),
            None => json_in(text@) is None,
        },
{
    serde_json::from_str(text).ok()
}

/// `serde_json::Value::get` with a key: what an object holds under the key,
/// and nothing where the value is no object or has no such key.
#[verifier::external_body]
fn json_get<'a>(value: &'a serde_json::Value, key: &str) -> (r: Option<&'a serde_json::Value>)
    ensures
        match r {
            Some(v) => json_of(*value) is Object && json_of(*value)->Object_0.contains_key(key@)
                && json_of(*v) == json_of(*value)->Object_0[key@],
            None => !(json_of(*value) is Object && json_of(*value)->Object_0.contains_key(key@)),
        },
{
    value.get(key)
}

/// `serde_json::Value::as_str`: the text of a string, and nothing where the
/// value is none.
#[verifier::external_body]
fn json_str<'a>(value: &'a serde_json::Value) -> (r: Option<&'a str>)
    ensures
        match r {
            Some(s) => json_of(*value) == Json::Str(s@),
            None => !(json_of(*value) is Str),
        },
{
    value.as_str()
}

/// `serde_json::Value::as_array`: the elements of an array, and nothing where
/// the value is none.
#[verifier::external_body]
fn json_array<'a>(value: &'a serde_json::Value) -> (r: Option<&'a Vec<serde_json::Value>>)
    ensures
        match r {
            Some(v) => json_of(*value) is Array && json_of(*value)->Array_0 == v@.map_values(
                |e: serde_json::Value| json_of(e),
            ),
            None => !(json_of(*value) is Array),
        },
{
    value.as_array()
}

/// What `value` holds under `key`.
pub open spec fn field(value: Json, key: Seq<char>) -> Option<Json> {
    match value {
        Json::Object(m) => if m.contains_key(key) {
            Some(m[key])
        } else {
            None
        },
        _ => None,
    }
}

/// The text that `value` holds under `key`.
pub open spec fn text_field(value: Json, key: Seq<char>) -> Option<Seq<char>> {
    match field(value, key) {
        Some(Json::Str(s)) => Some(s),
        _ => None,
    }
}

/// The kinds of a target: the text of each, or nothing where it is none.
pub open spec fn kinds_of(target: Json) -> Option<Seq<Option<Seq<char>>>> {
    match field(target, "kind"@) {
        Some(Json::Array(kinds)) => Some(
            kinds.map_values(
                |k: Json|
                    match k {
                        Json::Str(s) => Some(s),
                        _ => None,
                    },
            ),
        ),
        _ => None,
    }
}

/// The name and the program of a test target, given what a build message says:
/// its reason, the target's kinds and name, and the program. There is one only
/// where the message reports an artifact, `test` is among the kinds, and it
/// has a name and a program.
pub open spec fn artifact(
    reason: Option<Seq<char>>,
    kinds: Option<Seq<Option<Seq<char>>>>,
    name: Option<Seq<char>>,
    executable: Option<Seq<char>>,
) -> Option<(Seq<char>, Seq<char>)> {
    if reason == Some("compiler-artifact"@) && (kinds matches Some(k) && k.contains(
        Some("test"@),
    )) && name is Some && executable is Some {
        Some((name->0, executable->0))
    } else {
        None
    }
}

/// The name and the program of the test target that a build message reports,
/// where it reports one.
pub open spec fn artifact_of(message: Json) -> Option<(Seq<char>, Seq<char>)> {
    match field(message, "target"@) {
        Some(target) => artifact(
            text_field(message, "reason"@),
            kinds_of(target),
            text_field(target, "name"@),
            text_field(message, "executable"@),
        ),
        None => None,
    }
}

/// The name and the program of the test target that a line of a build's output
/// reports, where it reports one.
pub open spec fn artifact_in(line: Seq<char>) -> Option<(Seq<char>, Seq<char>)> {
    match json_in(text::trim(line)) {
        Some(message) => if text::trim(line).len() == 0 {
            None
        } else {
            artifact_of(message)
        },
        None => None,
    }
}

/// The test targets that the lines report, in order.
pub open spec fn artifacts_in(lines: Seq<Seq<char>>) -> Seq<(Seq<char>, Seq<char>)>
    decreases lines.len(),
{
    if lines.len() == 0 {
        seq![]
    } else {
        match artifact_in(lines.last()) {
            Some(a) => artifacts_in(lines.drop_last()).push(a),
            None => artifacts_in(lines.drop_last()),
        }
    }
}

fn read_field<'a>(value: &'a serde_json::Value, key: &str) -> (r: Option<&'a str>)
    ensures
        r.deep_view() == text_field(json_of(*value), key@),
{
    match json_get(value, key) {
        Some(v) => json_str(v),
        None => None,
    }
}

fn read_kinds(target: &serde_json::Value) -> (r: Option<Vec<Option<String>>>)
    ensures
        r.deep_view() == kinds_of(json_of(*target)),
{
    let kinds = match json_get(target, "kind") {
        Some(k) => match json_array(k) {
            Some(kinds) => kinds,
            None => return None,
        },
        None => return None,
    };
    let ghost all = kinds@.map_values(|e: serde_json::Value| json_of(e));
    let mut out: Vec<Option<String>> = Vec::new();
    let mut i: usize = 0;
    while i < kinds.len()
        invariant
            i <= kinds@.len(),
            all == kinds@.map_values(|e: serde_json::Value| json_of(e)),
            out@.len() == i,
            forall|k: int|
                0 <= k < i ==> (#[trigger] out@[k]).deep_view() == match all[k] {
                    Json::Str(s) => Some(s),
                    _ => None,
                },
        decreases kinds@.len() - i,
    {
        assert(all[i as int] == json_of(kinds@[i as int]));
        out.push(
            match json_str(&kinds[i]) {
                Some(s) => Some(s.to_owned()),
                None => None,
            },
        );
        i += 1;
    }
    assert(out.deep_view() =~= all.map_values(
        |k: Json|
            match k {
                Json::Str(s) => Some(s),
                _ => None,
            },
    ));
    Some(out)
}

/// The name and the program of a test target, given what a build message says.
pub fn select_artifact(
    reason: Option<&str>,
    kinds: &Option<Vec<Option<String>>>,
    name: Option<&str>,
    executable: Option<&str>,
) -> (r: Option<(String, String)>)
    ensures
        r.deep_view() == artifact(
            reason.deep_view(),
            kinds.deep_view(),
            name.deep_view(),
            executable.deep_view(),
        ),
{
    let reported = match reason {
        Some(r) => text::same(r, "compiler-artifact"),
        None => false,
    };
    let is_test = match kinds {
        Some(kinds) => types::any_is_name(kinds, "test"),
        None => false,
    };
    if !reported || !is_test {
        return None;
    }
    match (name, executable) {
        (Some(name), Some(executable)) => Some((name.to_owned(), executable.to_owned())),
        _ => None,
    }
}

fn read_artifact(message: &serde_json::Value) -> (r: Option<(String, String)>)
    ensures
        r.deep_view() == artifact_of(json_of(*message)),
{
    match json_get(message, "target") {
        Some(target) => select_artifact(
            read_field(message, "reason"),
            &read_kinds(target),
            read_field(target, "name"),
            read_field(message, "executable"),
        ),
        None => None,
    }
}

/// The test targets that a build reports, each by its name and its program, in
/// order. Lines that report something else, or are no JSON, are passed over.
pub fn find_all_test_executables(json_output: &str) -> (r: Vec<(String, String)>)
    ensures
        r.deep_view() == artifacts_in(text::lines(json_output@)),
{
    let lines = text::lines_of(json_output);
    let ghost all = text::texts(lines@);
    let mut out: Vec<(String, String)> = Vec::new();
    let mut i: usize = 0;
    assert(out.deep_view() =~= seq![]);
    while i < lines.len()
        invariant
            i <= lines@.len(),
            all == text::texts(lines@),
            out.deep_view() == artifacts_in(all.take(i as int)),
        decreases lines@.len() - i,
    {
        proof {
            assert(all.take(i + 1).drop_last() =~= all.take(i as int));
            assert(all.take(i + 1).last() == lines@[i as int]@);
        }
        let line = text::trimmed(&lines[i]);
        if line.as_str().unicode_len() > 0 {
            if let Some(message) = parse_json(&line) {
                if let Some(a) = read_artifact(&message) {
                    let ghost was = out.deep_view();
                    let ghost v = a.deep_view();
                    out.push(a);
                    assert(out.deep_view() =~= was.push(v));
                }
            }
        }
        i += 1;
    }
    assert(all.take(i as int) =~= all);
    out
}

/// The directory that a description of the workspace names as the one it is
/// built in.
pub open spec fn target_directory_in(metadata: Seq<char>) -> Option<Seq<char>> {
    match json_in(metadata) {
        Some(value) => text_field(value, "target_directory"@),
        None => None,
    }
}

/// The directory that a description of the workspace names as the one it is
/// built in, or what is wrong with the description.
pub fn target_directory(metadata: &str) -> (r: Result<String, &'static str>)
    ensures
        match r {
            Ok(dir) => target_directory_in(metadata@) == Some(dir@),
            Err(e) => target_directory_in(metadata@) is None && e@ == if json_in(
                metadata@,
            ) is None {
                "cargo metadata produced invalid JSON"@
            } else {
                "cargo metadata missing 'target_directory'"@
            },
        },
{
    match parse_json(metadata) {
        Some(value) => match read_field(&value, "target_directory") {
            Some(dir) => Ok(dir.to_owned()),
            None => Err("cargo metadata missing 'target_directory'"),
        },
        None => Err("cargo metadata produced invalid JSON"),
    }
}

// ── the command ─────────────────────────────────────────────────────────────

/// The arguments of `cargo rigtest run`.
#[derive(Debug)]
pub struct RunArgs {
    pub jobs: Option<usize>,
    pub seed: Option<u64>,
    pub filter: Option<String>,
    pub tag: Vec<String>,
    pub not_tag: Vec<String>,
    pub package: Option<String>,
    pub test: Vec<String>,
    pub no_capture: bool,
    /// Whether a JUnit report is asked for.
    pub junit: bool,
    pub retries: Option<usize>,
    pub no_preflight: bool,
    pub preflight_only: bool,
    pub continue_on_preflight_failure: bool,
}

/// `flag` and `value`, where there is a value.
pub open spec fn option_args(flag: Seq<char>, value: Option<Seq<char>>) -> Seq<Seq<char>> {
    match value {
        Some(v) => seq![flag, v],
        None => seq![],
    }
}

/// `flag` and the value, for each of the values.
pub open spec fn repeated_args(flag: Seq<char>, values: Seq<Seq<char>>) -> Seq<Seq<char>>
    decreases values.len(),
{
    if values.len() == 0 {
        seq![]
    } else {
        repeated_args(flag, values.drop_last()) + seq![flag, values.last()]
    }
}

/// `flag`, where it is set.
pub open spec fn flag_args(flag: Seq<char>, set: bool) -> Seq<Seq<char>> {
    if set {
        seq![flag]
    } else {
        seq![]
    }
}

/// A number as text.
pub open spec fn number_arg(n: Option<nat>) -> Option<Seq<char>> {
    match n {
        Some(n) => Some(text::decimal(n)),
        None => None,
    }
}

fn add_option(out: &mut Vec<String>, flag: &str, value: Option<&String>)
    ensures
        final(out).deep_view() == old(out).deep_view() + option_args(flag@, value.deep_view()),
{
    let ghost was = out.deep_view();
    if let Some(v) = value {
        out.push(flag.to_owned());
        out.push(v.clone());
    }
    assert(out.deep_view() =~= was + option_args(flag@, value.deep_view()));
}

fn add_number(out: &mut Vec<String>, flag: &str, value: Option<u64>)
    ensures
        final(out).deep_view() == old(out).deep_view() + option_args(
            flag@,
            number_arg(
                match value {
                    Some(n) => Some(n as nat),
                    None => None,
                },
            ),
        ),
{
    match value {
        Some(n) => add_option(out, flag, Some(&text::number(n as u128))),
        None => add_option(out, flag, None),
    }
}

fn add_repeated(out: &mut Vec<String>, flag: &str, values: &Vec<String>)
    ensures
        final(out).deep_view() == old(out).deep_view() + repeated_args(flag@, values.deep_view()),
{
    let ghost was = out.deep_view();
    let ghost all = values.deep_view();
    let mut i: usize = 0;
    assert(out.deep_view() =~= was + repeated_args(flag@, all.take(0)));
    while i < values.len()
        invariant
            i <= values@.len(),
            all == values.deep_view(),
            out.deep_view() == was + repeated_args(flag@, all.take(i as int)),
        decreases values@.len() - i,
    {
        proof {
            assert(all.take(i + 1).drop_last() =~= all.take(i as int));
            assert(all.take(i + 1).last() == values@[i as int]@);
        }
        add_option(out, flag, Some(&values[i]));
        i += 1;
        assert(out.deep_view() =~= was + repeated_args(flag@, all.take(i as int)));
    }
    assert(all.take(i as int) =~= all);
}

fn add_flag(out: &mut Vec<String>, flag: &str, set: bool)
    ensures
        final(out).deep_view() == old(out).deep_view() + flag_args(flag@, set),
{
    let ghost was = out.deep_view();
    if set {
        out.push(flag.to_owned());
    }
    assert(out.deep_view() =~= was + flag_args(flag@, set));
}

/// The arguments with which `cargo` builds the test programs.
pub open spec fn build_args_of(package: Option<Seq<char>>, test: Seq<Seq<char>>) -> Seq<Seq<char>> {
    seq!["test"@, "--no-run"@, "--message-format=json"@] + option_args("--package"@, package)
        + repeated_args("--test"@, test)
}

/// The arguments with which `cargo` builds the test programs.
pub fn build_args(args: &RunArgs) -> (r: Vec<String>)
    ensures
        r.deep_view() == build_args_of(args.package.deep_view(), args.test.deep_view()),
{
    let mut out: Vec<String> = Vec::new();
    out.push("test".to_owned());
    out.push("--no-run".to_owned());
    out.push("--message-format=json".to_owned());
    assert(out.deep_view() =~= seq!["test"@, "--no-run"@, "--message-format=json"@]);
    add_option(&mut out, "--package", args.package.as_ref());
    add_repeated(&mut out, "--test", &args.test);
    out
}

/// The arguments that a test program gets.
pub open spec fn forwarded(args: RunArgs) -> Seq<Seq<char>> {
    option_args(
        "--jobs"@,
        number_arg(
            match args.jobs {
                Some(n) => Some(n as nat),
                None => None,
            },
        ),
    ) + option_args(
        "--seed"@,
        number_arg(
            match args.seed {
                Some(n) => Some(n as nat),
                None => None,
            },
        ),
    ) + option_args("--filter"@, args.filter.deep_view()) + repeated_args(
        "--tag"@,
        args.tag.deep_view(),
    ) + repeated_args("--not-tag"@, args.not_tag.deep_view()) + flag_args(
        "--no-capture"@,
        args.no_capture,
    ) + option_args(
        "--retries"@,
        number_arg(
            match args.retries {
                Some(n) => Some(n as nat),
                None => None,
            },
        ),
    ) + flag_args("--no-preflight"@, args.no_preflight) + flag_args(
        "--preflight-only"@,
        args.preflight_only,
    ) + flag_args("--continue-on-preflight-failure"@, args.continue_on_preflight_failure)
        + option_args(
        "--reporter"@,
        if args.junit {
            Some("junit"@)
        } else {
            None
        },
    )
}

fn as_u64(n: Option<usize>) -> (r: Option<u64>)
    ensures
        match n {
            Some(n) => r == Some(n as u64),
            None => r is None,
        },
{
    match n {
        Some(n) => Some(n as u64),
        None => None,
    }
}

/// The arguments that a test program gets.
pub fn forwarded_args(args: &RunArgs) -> (r: Vec<String>)
    ensures
        r.deep_view() == forwarded(*args),
{
    let mut out: Vec<String> = Vec::new();
    assert(out.deep_view() =~= seq![]);
    add_number(&mut out, "--jobs", as_u64(args.jobs));
    assert(out.deep_view() =~= option_args(
        "--jobs"@,
        number_arg(
            match args.jobs {
                Some(n) => Some(n as nat),
                None => None,
            },
        ),
    ));
    add_number(&mut out, "--seed", args.seed);
    add_option(&mut out, "--filter", args.filter.as_ref());
    add_repeated(&mut out, "--tag", &args.tag);
    add_repeated(&mut out, "--not-tag", &args.not_tag);
    add_flag(&mut out, "--no-capture", args.no_capture);
    add_number(&mut out, "--retries", as_u64(args.retries));
    add_flag(&mut out, "--no-preflight", args.no_preflight);
    add_flag(&mut out, "--preflight-only", args.preflight_only);
    add_flag(&mut out, "--continue-on-preflight-failure", args.continue_on_preflight_failure);
    let junit = "junit".to_owned();
    let kind = if args.junit {
        Some(&junit)
    } else {
        None
    };
    add_option(&mut out, "--reporter", kind);
    out
}

/// Whether a target of that name is among `targets`.
pub open spec fn is_target(targets: Seq<(Seq<char>, Seq<char>)>, name: Seq<char>) -> bool {
    exists|i: int| 0 <= i < targets.len() && (#[trigger] targets[i]).0 == name
}

/// The names among `test` that no target has, in order.
pub open spec fn unknown_targets(targets: Seq<(Seq<char>, Seq<char>)>, test: Seq<Seq<char>>) -> Seq<
    Seq<char>,
> {
    test.filter(|name: Seq<char>| !is_target(targets, name))
}

/// The targets that are run: those named in `test`, or all where none is.
pub open spec fn chosen_targets(
    targets: Seq<(Seq<char>, Seq<char>)>,
    test: Seq<Seq<char>>,
) -> Seq<(Seq<char>, Seq<char>)> {
    if test.len() == 0 {
        targets
    } else {
        targets.filter(|t: (Seq<char>, Seq<char>)| test.contains(t.0))
    }
}

/// What is wrong with a choice of targets, if anything: there are none at all,
/// or some of those named are none.
pub open spec fn choice_error(targets: Seq<(Seq<char>, Seq<char>)>, test: Seq<Seq<char>>) -> Option<
    Seq<char>,
> {
    if targets.len() == 0 {
        Some(
            "no rigtest test targets found. Make sure at least one [[test]] target in Cargo.toml has harness = false and calls rigtest::run_main()."@,
        )
    } else if unknown_targets(targets, test).len() > 0 {
        Some(
            "unknown rig test target(s): "@ + text::join(
                unknown_targets(targets, test).map_values(|n: Seq<char>| "'"@ + n + "'"@),
                ", "@,
            ) + ". Run without --test to run all rig targets."@,
        )
    } else {
        None
    }
}

fn has_target(targets: &Vec<(String, String)>, name: &str) -> (r: bool)
    ensures
        r == is_target(targets.deep_view(), name@),
{
    let mut i: usize = 0;
    while i < targets.len()
        invariant
            i <= targets@.len(),
            forall|k: int| 0 <= k < i ==> (#[trigger] targets.deep_view()[k]).0 != name@,
        decreases targets@.len() - i,
    {
        assert(targets.deep_view()[i as int] == targets@[i as int].deep_view());
        if text::same(&targets[i].0, name) {
            return true;
        }
        i += 1;
    }
    false
}

fn names_hold(names: &Vec<String>, name: &str) -> (r: bool)
    ensures
        r == names.deep_view().contains(name@),
{
    let mut i: usize = 0;
    while i < names.len()
        invariant
            i <= names@.len(),
            forall|k: int| 0 <= k < i ==> #[trigger] names.deep_view()[k] != name@,
        decreases names@.len() - i,
    {
        assert(names.deep_view()[i as int] == names@[i as int]@);
        if text::same(&names[i], name) {
            return true;
        }
        i += 1;
    }
    false
}

fn quoted_unknown(targets: &Vec<(String, String)>, test: &Vec<String>) -> (r: Vec<String>)
    ensures
        r.deep_view() == unknown_targets(targets.deep_view(), test.deep_view()).map_values(
            |n: Seq<char>| "'"@ + n + "'"@,
        ),
{
    let ghost all = test.deep_view();
    let ghost p = |name: Seq<char>| !is_target(targets.deep_view(), name);
    let ghost q = |n: Seq<char>| "'"@ + n + "'"@;
    let mut out: Vec<String> = Vec::new();
    let mut i: usize = 0;
    assert(out.deep_view() =~= all.take(0).filter(p).map_values(q)) by {
        reveal(Seq::filter);
    }
    while i < test.len()
        invariant
            i <= test@.len(),
            all == test.deep_view(),
            p == (|name: Seq<char>| !is_target(targets.deep_view(), name)),
            q == (|n: Seq<char>| "'"@ + n + "'"@),
            out.deep_view() == all.take(i as int).filter(p).map_values(q),
        decreases test@.len() - i,
    {
        proof {
            assert(all.take(i + 1) =~= all.take(i as int).push(test@[i as int]@));
            text::lemma_filter_push(all.take(i as int), test@[i as int]@, p);
        }
        let ghost was = out.deep_view();
        if !has_target(targets, &test[i]) {
            let mut s = "'".to_owned();
            s.append(&test[i]);
            s.append("'");
            out.push(s);
            assert(out.deep_view() =~= was.push(q(test@[i as int]@)));
        }
        assert(out.deep_view() =~= all.take(i + 1).filter(p).map_values(q));
        i += 1;
    }
    assert(all.take(i as int) =~= all);
    out
}

/// The targets that are run, or what is wrong with the choice of them.
pub fn select_targets(targets: Vec<(String, String)>, test: &Vec<String>) -> (r: Result<
    Vec<(String, String)>,
    String,
>)
    ensures
        match r {
            Ok(chosen) => choice_error(targets.deep_view(), test.deep_view()) is None
                && chosen.deep_view() == chosen_targets(targets.deep_view(), test.deep_view()),
            Err(e) => choice_error(targets.deep_view(), test.deep_view()) == Some(e@),
        },
{
    if targets.len() == 0 {
        return Err(
            "no rigtest test targets found. Make sure at least one [[test]] target in Cargo.toml has harness = false and calls rigtest::run_main().".to_owned(),
        );
    }
    if test.len() == 0 {
        assert(unknown_targets(targets.deep_view(), test.deep_view()).len() == 0) by {
            reveal(Seq::filter);
        }
        return Ok(targets);
    }
    let unknown = quoted_unknown(&targets, test);
    if unknown.len() > 0 {
        let mut e = "unknown rig test target(s): ".to_owned();
        e.append(&text::joined(&unknown, ", "));
        e.append(". Run without --test to run all rig targets.");
        return Err(e);
    }
    assert(unknown.deep_view().len() == unknown_targets(
        targets.deep_view(),
        test.deep_view(),
    ).len());
    let ghost all = targets.deep_view();
    let ghost p = |t: (Seq<char>, Seq<char>)| test.deep_view().contains(t.0);
    let mut out: Vec<(String, String)> = Vec::new();
    let mut i: usize = 0;
    assert(out.deep_view() =~= all.take(0).filter(p)) by {
        reveal(Seq::filter);
    }
    while i < targets.len()
        invariant
            i <= targets@.len(),
            all == targets.deep_view(),
            p == (|t: (Seq<char>, Seq<char>)| test.deep_view().contains(t.0)),
            out.deep_view() == all.take(i as int).filter(p),
        decreases targets@.len() - i,
    {
        let ghost t = targets@[i as int].deep_view();
        proof {
            assert(all.take(i + 1) =~= all.take(i as int).push(t));
            text::lemma_filter_push(all.take(i as int), t, p);
        }
        let ghost was = out.deep_view();
        if names_hold(test, &targets[i].0) {
            out.push((targets[i].0.clone(), targets[i].1.clone()));
            assert(out.deep_view() =~= was.push(t));
        }
        i += 1;
    }
    assert(all.take(i as int) =~= all);
    Ok(out)
}

/// The exit code of the command, given those of the first `n` test programs:
/// the last one that is not zero, where a program that was stopped counts as
/// one.
pub open spec fn code_after(codes: Seq<Option<i32>>, n: int) -> i32
    decreases n,
{
    if n <= 0 {
        0
    } else {
        let code = match codes[n - 1] {
            Some(c) => c,
            None => 1,
        };
        if code != 0 {
            code
        } else {
            code_after(codes, n - 1)
        }
    }
}

/// The exit code of the command, given those of the test programs.
pub fn last_code(codes: &Vec<Option<i32>>) -> (code: i32)
    ensures
        code == code_after(codes@, codes@.len() as int),
{
    let mut last: i32 = 0;
    let mut i: usize = 0;
    while i < codes.len()
        invariant
            i <= codes@.len(),
            last == code_after(codes@, i as int),
        decreases codes@.len() - i,
    {
        let code: i32 = match codes[i] {
            Some(c) => c,
            None => 1,
        };
        if code != 0 {
            last = code;
        }
        i += 1;
    }
    last
}

/// What is wrong where the build failed with that exit code.
pub open spec fn build_failure_text(code: Option<i32>) -> Seq<char> {
    "cargo test --no-run failed with exit code "@ + match code {
        Some(c) => text::signed_decimal(c as int),
        None => "unknown"@,
    }
}

/// What is wrong where the build failed with that exit code.
pub fn build_failure(code: Option<i32>) -> (s: String)
    ensures
        s@ == build_failure_text(code),
{
    let mut s = "cargo test --no-run failed with exit code ".to_owned();
    match code {
        Some(c) => s.append(&text::signed_number(c)),
        None => s.append("unknown"),
    }
    s
}

/// The file name of the part of the report that a test program writes, given
/// the program's own file name.
pub open spec fn part_name(file_name: Option<Seq<char>>) -> Seq<char> {
    let stem = match file_name {
        Some(n) => n,
        None => "part"@,
    };
    stem + ".xml"@
}

/// The file name of the part of the report that a test program writes, given
/// the program's own file name.
pub fn part_file_name(file_name: Option<&str>) -> (s: String)
    ensures
        s@ == part_name(file_name.deep_view()),
{
    let mut s = match file_name {
        Some(n) => n.to_owned(),
        None => "part".to_owned(),
    };
    s.append(".xml");
    s
}

// ── laws ────────────────────────────────────────────────────────────────────

/// The command succeeds exactly where every test program did.
pub proof fn law_success_means_every_program(codes: Seq<Option<i32>>, n: int)
    requires
        0 <= n <= codes.len(),
    ensures
        code_after(codes, n) == 0 <==> forall|i: int|
            0 <= i < n ==> #[trigger] codes[i] == Some(0i32),
    decreases n,
{
    if n > 0 {
        law_success_means_every_program(codes, n - 1);
        assert(codes[n - 1] == Some(0i32) || codes[n - 1] != Some(0i32));
    }
}

/// The command ends with the exit code of the last test program that did not
/// succeed, where one that was stopped counts as one.
pub proof fn law_last_failure_decides(codes: Seq<Option<i32>>, n: int, last: int)
    requires
        0 <= last < n <= codes.len(),
        codes[last] != Some(0i32),
        forall|i: int| last < i < n ==> #[trigger] codes[i] == Some(0i32),
    ensures
        codes[last] matches Some(c) ==> code_after(codes, n) == c,
        codes[last] is None ==> code_after(codes, n) == 1,
    decreases n,
{
    if n - 1 > last {
        assert(codes[n - 1] == Some(0i32));
        law_last_failure_decides(codes, n - 1, last);
    }
}

/// Where names are given and each is that of a target, nothing is wrong with
/// the choice; the targets that run are those whose name is given; and every
/// name given has a target that runs.
pub proof fn law_named_targets_run(targets: Seq<(Seq<char>, Seq<char>)>, test: Seq<Seq<char>>)
    requires
        test.len() > 0,
        forall|k: int|
            0 <= k < test.len() ==> exists|i: int|
                0 <= i < targets.len() && (#[trigger] targets[i]).0 == #[trigger] test[k],
    ensures
        choice_error(targets, test) is None,
        forall|t: (Seq<char>, Seq<char>)| #[trigger]
            chosen_targets(targets, test).contains(t) <==> targets.contains(t) && exists|k: int|
                0 <= k < test.len() && #[trigger] test[k] == t.0,
        forall|k: int|
            0 <= k < test.len() ==> exists|j: int|
                0 <= j < chosen_targets(targets, test).len() && (#[trigger] chosen_targets(
                    targets,
                    test,
                )[j]).0 == #[trigger] test[k],
{
    let unknown = |name: Seq<char>| !is_target(targets, name);
    let named = |t: (Seq<char>, Seq<char>)| test.contains(t.0);
    let chosen = chosen_targets(targets, test);
    if unknown_targets(targets, test).len() > 0 {
        let bad = unknown_targets(targets, test)[0];
        text::lemma_filter_contains(test, unknown, bad);
        assert(unknown_targets(targets, test).contains(bad));
        let k = test.index_of(bad);
        assert(test[k] == bad);
    }
    assert(test.len() > 0 && targets.len() > 0) by {
        assert(test[0] == test[0]);
    }
    assert forall|t: (Seq<char>, Seq<char>)| #[trigger] chosen.contains(t) <==> targets.contains(t)
        && exists|k: int| 0 <= k < test.len() && #[trigger] test[k] == t.0 by {
        text::lemma_filter_contains(targets, named, t);
    }
    assert forall|k: int| 0 <= k < test.len() implies exists|j: int|
        0 <= j < chosen.len() && (#[trigger] chosen[j]).0 == #[trigger] test[k] by {
        let i = choose|i: int| 0 <= i < targets.len() && (#[trigger] targets[i]).0 == test[k];
        assert(targets.contains(targets[i]));
        assert(test[k] == targets[i].0);
        assert(chosen.contains(targets[i]));
        let j = chosen.index_of(targets[i]);
        assert(chosen[j].0 == test[k]);
    }
}

/// Targets run in the order in which they were found, and which of them run
/// does not depend on the others.
pub proof fn law_choice_is_made_one_by_one(
    targets: Seq<(Seq<char>, Seq<char>)>,
    more: Seq<(Seq<char>, Seq<char>)>,
    test: Seq<Seq<char>>,
)
    ensures
        chosen_targets(targets + more, test) == chosen_targets(targets, test) + chosen_targets(
            more,
            test,
        ),
        test.len() == 0 ==> chosen_targets(targets, test) == targets,
{
    let named = |t: (Seq<char>, Seq<char>)| test.contains(t.0);
    Seq::filter_distributes_over_add(targets, more, named);
}

/// A choice is wrong exactly where there is no target at all or a name that is
/// given is that of none; and what is said then quotes each such name.
pub proof fn law_unknown_names_are_refused(
    targets: Seq<(Seq<char>, Seq<char>)>,
    test: Seq<Seq<char>>,
)
    ensures
        choice_error(targets, test) is Some <==> targets.len() == 0 || exists|k: int|
            0 <= k < test.len() && !is_target(targets, #[trigger] test[k]),
        forall|k: int|
            targets.len() > 0 && 0 <= k < test.len() && !is_target(targets, test[k])
                ==> text::contains(
                choice_error(targets, test)->0,
                "'"@ + #[trigger] test[k] + "'"@,
            ),
{
    let unknown = |name: Seq<char>| !is_target(targets, name);
    let names = unknown_targets(targets, test);
    let quoted = names.map_values(|n: Seq<char>| "'"@ + n + "'"@);
    if names.len() > 0 {
        text::lemma_filter_contains(test, unknown, names[0]);
        assert(names.contains(names[0]));
        let k = test.index_of(names[0]);
        assert(test[k] == names[0]);
        assert(!is_target(targets, test[k]));
    }
    assert forall|k: int|
        0 <= k < test.len() && !is_target(targets, test[k]) implies names.len() > 0 && (targets.len() > 0 ==> text::contains(
        choice_error(targets, test)->0,
        "'"@ + #[trigger] test[k] + "'"@,
    )) by {
        assert(!is_target(targets, test[k]));
        assert(test.contains(test[k]));
        text::lemma_filter_contains(test, unknown, test[k]);
        let j = names.index_of(test[k]);
        assert(quoted[j] == "'"@ + test[k] + "'"@);
        text::law_parts_stand_in_the_join(quoted, ", "@, j);
        if targets.len() > 0 {
            let whole = choice_error(targets, test)->0;
            let head = "unknown rig test target(s): "@;
            text::lemma_contains_within(
                head,
                text::join(quoted, ", "@),
                ". Run without --test to run all rig targets."@,
                quoted[j],
            );
        }
    }
}

/// The test targets that a build reports are those of its lines, one behind
/// the other: a line adds at most one, whatever the other lines hold.
pub proof fn law_lines_report_one_by_one(a: Seq<Seq<char>>, b: Seq<Seq<char>>, line: Seq<char>)
    ensures
        artifacts_in(a + b) == artifacts_in(a) + artifacts_in(b),
        artifacts_in(seq![line]) == match artifact_in(line) {
            Some(x) => seq![x],
            None => seq![],
        },
    decreases b.len(),
{
    let one = seq![line];
    assert(one.drop_last() =~= seq![]);
    assert(artifacts_in(one.drop_last()) =~= seq![]);
    assert(one.last() == line);
    assert(artifacts_in(one) =~= match artifact_in(line) {
        Some(x) => seq![x],
        None => seq![],
    });
    if b.len() == 0 {
        assert(a + b =~= a);
        assert(artifacts_in(a) + artifacts_in(b) =~= artifacts_in(a));
    } else {
        law_lines_report_one_by_one(a, b.drop_last(), line);
        assert((a + b).drop_last() =~= a + b.drop_last());
        assert((a + b).last() == b.last());
        assert(artifacts_in(a + b) =~= artifacts_in(a) + artifacts_in(b));
    }
}

/// A message reports the test target of that name and program exactly where
/// its reason is that an artifact was made, its target is of the kind `test`
/// among others and has that name, and its executable is that program.
pub proof fn law_test_artifacts(message: Map<Seq<char>, Json>, name: Seq<char>, program: Seq<char>)
    ensures
        artifact_of(Json::Object(message)) == Some((name, program)) <==> {
            &&& message.contains_key("reason"@)
            &&& message["reason"@] == Json::Str("compiler-artifact"@)
            &&& message.contains_key("executable"@)
            &&& message["executable"@] == Json::Str(program)
            &&& message.contains_key("target"@)
            &&& message["target"@] matches Json::Object(target)
            &&& target.contains_key("name"@)
            &&& target["name"@] == Json::Str(name)
            &&& target.contains_key("kind"@)
            &&& target["kind"@] matches Json::Array(kinds)
            &&& exists|i: int| 0 <= i < kinds.len() && #[trigger] kinds[i] == Json::Str("test"@)
        },
{
    let whole = Json::Object(message);
    if message.contains_key("target"@) {
        let target = message["target"@];
        if let Some(Json::Array(kinds)) = field(target, "kind"@) {
            let texts = kinds_of(target)->0;
            assert(texts.contains(Some("test"@)) <==> exists|i: int|
                0 <= i < kinds.len() && #[trigger] kinds[i] == Json::Str("test"@)) by {
                if texts.contains(Some("test"@)) {
                    let i = texts.index_of(Some("test"@));
                    assert(texts[i] == Some("test"@));
                    assert(kinds[i] == Json::Str("test"@));
                }
                if exists|i: int| 0 <= i < kinds.len() && #[trigger] kinds[i] == Json::Str(
                    "test"@,
                ) {
                    let i = choose|i: int|
                        0 <= i < kinds.len() && #[trigger] kinds[i] == Json::Str("test"@);
                    assert(texts[i] == Some("test"@));
                }
            }
        }
    }
}

/// Whether `more` is `less` with `extra` put in somewhere.
pub open spec fn has_more(less: Seq<Seq<char>>, more: Seq<Seq<char>>, extra: Seq<Seq<char>>) -> bool {
    exists|k: int|
        0 <= k <= less.len() && more == #[trigger] less.take(k) + extra + less.skip(k)
}

/// What the parts of a command line come to.
pub open spec fn flat(parts: Seq<Seq<Seq<char>>>) -> Seq<Seq<char>>
    decreases parts.len(),
{
    if parts.len() == 0 {
        seq![]
    } else {
        flat(parts.drop_last()) + parts.last()
    }
}

proof fn lemma_longer_part(
    less: Seq<Seq<Seq<char>>>,
    more: Seq<Seq<Seq<char>>>,
    i: int,
    extra: Seq<Seq<char>>,
)
    requires
        0 <= i < less.len(),
        more =~= less.update(i, less[i] + extra),
    ensures
        has_more(flat(less), flat(more), extra),
    decreases less.len(),
{
    let a = flat(less);
    let b = flat(more);
    let head = less.drop_last();
    if i == less.len() - 1 {
        assert(more.drop_last() =~= head);
        let k = a.len() as int;
        assert(b =~= a.take(k) + extra + a.skip(k));
    } else {
        assert(more.last() == less.last());
        assert(more.drop_last() =~= head.update(i, head[i] + extra));
        lemma_longer_part(head, more.drop_last(), i, extra);
        let h = flat(head);
        let k = choose|k: int|
            0 <= k <= h.len() && flat(more.drop_last()) == #[trigger] h.take(k) + extra + h.skip(k);
        assert(b =~= a.take(k) + extra + a.skip(k));
    }
}

/// The parts of what a test program gets, one for each thing that can be given.
spec fn forwarded_parts(args: RunArgs) -> Seq<Seq<Seq<char>>> {
    seq![
        option_args("--jobs"@, number_arg(wide(args.jobs))),
        option_args(
            "--seed"@,
            number_arg(
                match args.seed {
                    Some(n) => Some(n as nat),
                    None => None,
                },
            ),
        ),
        option_args("--filter"@, args.filter.deep_view()),
        repeated_args("--tag"@, args.tag.deep_view()),
        repeated_args("--not-tag"@, args.not_tag.deep_view()),
        flag_args("--no-capture"@, args.no_capture),
        option_args("--retries"@, number_arg(wide(args.retries))),
        flag_args("--no-preflight"@, args.no_preflight),
        flag_args("--preflight-only"@, args.preflight_only),
        flag_args("--continue-on-preflight-failure"@, args.continue_on_preflight_failure),
        option_args(
            "--reporter"@,
            if args.junit {
                Some("junit"@)
            } else {
                None
            },
        ),
    ]
}

spec fn wide(n: Option<usize>) -> Option<nat> {
    match n {
        Some(n) => Some(n as nat),
        None => None,
    }
}

proof fn lemma_forwarded(args: RunArgs)
    ensures
        forwarded(args) == flat(forwarded_parts(args)),
{
    let p = forwarded_parts(args);
    lemma_flat_take(p, 11);
    assert(p.take(11) =~= p);
    assert(flat(p.take(0)) =~= seq![]);
    assert(flat(p.take(1)) =~= p[0]);
}

proof fn lemma_flat_take(p: Seq<Seq<Seq<char>>>, n: int)
    requires
        0 <= n <= p.len(),
    ensures
        forall|i: int| 0 < i <= n ==> #[trigger] flat(p.take(i)) == flat(p.take(i - 1)) + p[i - 1],
    decreases n,
{
    if n > 0 {
        lemma_flat_take(p, n - 1);
        assert(p.take(n).drop_last() =~= p.take(n - 1));
    }
}

/// What is given to the command for the test programs reaches them under its
/// own name and with its own value, and changes nothing else of what they get;
/// what is not given does not reach them.
pub proof fn law_options_reach_the_programs(
    args: RunArgs,
    jobs: usize,
    seed: u64,
    retries: usize,
    filter: String,
)
    requires
        args.jobs is None,
        args.seed is None,
        args.retries is None,
        args.filter is None,
    ensures
        has_more(
            forwarded(args),
            forwarded(RunArgs { jobs: Some(jobs), ..args }),
            seq!["--jobs"@, text::decimal(jobs as nat)],
        ),
        has_more(
            forwarded(args),
            forwarded(RunArgs { seed: Some(seed), ..args }),
            seq!["--seed"@, text::decimal(seed as nat)],
        ),
        has_more(
            forwarded(args),
            forwarded(RunArgs { retries: Some(retries), ..args }),
            seq!["--retries"@, text::decimal(retries as nat)],
        ),
        has_more(
            forwarded(args),
            forwarded(RunArgs { filter: Some(filter), ..args }),
            seq!["--filter"@, filter@],
        ),
{
    lemma_forwarded(args);
    let b = RunArgs { jobs: Some(jobs), ..args };
    lemma_forwarded(b);
    lemma_longer_part(forwarded_parts(args), forwarded_parts(b), 0, seq!["--jobs"@, text::decimal(jobs as nat)]);
    let b = RunArgs { seed: Some(seed), ..args };
    lemma_forwarded(b);
    lemma_longer_part(forwarded_parts(args), forwarded_parts(b), 1, seq!["--seed"@, text::decimal(seed as nat)]);
    let b = RunArgs { retries: Some(retries), ..args };
    lemma_forwarded(b);
    lemma_longer_part(forwarded_parts(args), forwarded_parts(b), 6, seq!["--retries"@, text::decimal(retries as nat)]);
    let b = RunArgs { filter: Some(filter), ..args };
    lemma_forwarded(b);
    assert(b.filter.deep_view() == Some(filter@));
    lemma_longer_part(forwarded_parts(args), forwarded_parts(b), 2, seq!["--filter"@, filter@]);
}

/// A flag that is set reaches the test programs under its own name, and
/// changes nothing else of what they get; one that is not set does not reach
/// them. A report is asked of them where one is asked for.
pub proof fn law_flags_reach_the_programs(args: RunArgs)
    requires
        !args.no_capture,
        !args.no_preflight,
        !args.preflight_only,
        !args.continue_on_preflight_failure,
        !args.junit,
    ensures
        has_more(
            forwarded(args),
            forwarded(RunArgs { no_capture: true, ..args }),
            seq!["--no-capture"@],
        ),
        has_more(
            forwarded(args),
            forwarded(RunArgs { no_preflight: true, ..args }),
            seq!["--no-preflight"@],
        ),
        has_more(
            forwarded(args),
            forwarded(RunArgs { preflight_only: true, ..args }),
            seq!["--preflight-only"@],
        ),
        has_more(
            forwarded(args),
            forwarded(RunArgs { continue_on_preflight_failure: true, ..args }),
            seq!["--continue-on-preflight-failure"@],
        ),
        has_more(
            forwarded(args),
            forwarded(RunArgs { junit: true, ..args }),
            seq!["--reporter"@, "junit"@],
        ),
{
    lemma_forwarded(args);
    let b = RunArgs { no_capture: true, ..args };
    lemma_forwarded(b);
    lemma_longer_part(forwarded_parts(args), forwarded_parts(b), 5, seq!["--no-capture"@]);
    let b = RunArgs { no_preflight: true, ..args };
    lemma_forwarded(b);
    lemma_longer_part(forwarded_parts(args), forwarded_parts(b), 7, seq!["--no-preflight"@]);
    let b = RunArgs { preflight_only: true, ..args };
    lemma_forwarded(b);
    lemma_longer_part(forwarded_parts(args), forwarded_parts(b), 8, seq!["--preflight-only"@]);
    let b = RunArgs { continue_on_preflight_failure: true, ..args };
    lemma_forwarded(b);
    lemma_longer_part(forwarded_parts(args), forwarded_parts(b), 9, seq!["--continue-on-preflight-failure"@]);
    let b = RunArgs { junit: true, ..args };
    lemma_forwarded(b);
    lemma_longer_part(forwarded_parts(args), forwarded_parts(b), 10, seq!["--reporter"@, "junit"@]);
}

/// Every tag that is asked for reaches the test programs as one that is asked
/// for, in order, and changes nothing else of what they get.
pub proof fn law_tags_reach_the_programs(args: RunArgs, more: Vec<String>, tag: Seq<char>)
    requires
        more.deep_view() == args.tag.deep_view().push(tag),
    ensures
        has_more(
            forwarded(args),
            forwarded(RunArgs { tag: more, ..args }),
            seq!["--tag"@, tag],
        ),
{
    let b = RunArgs { tag: more, ..args };
    lemma_forwarded(args);
    lemma_forwarded(b);
    lemma_tag_part(args, b, tag);
    lemma_longer_part(forwarded_parts(args), forwarded_parts(b), 3, seq!["--tag"@, tag]);
}

proof fn lemma_tag_part(args: RunArgs, b: RunArgs, tag: Seq<char>)
    requires
        b.tag.deep_view() == args.tag.deep_view().push(tag),
        b == (RunArgs { tag: b.tag, ..args }),
    ensures
        forwarded_parts(b) == forwarded_parts(args).update(
            3,
            forwarded_parts(args)[3] + seq!["--tag"@, tag],
        ),
{
    assert(args.tag.deep_view().push(tag).drop_last() =~= args.tag.deep_view());
    assert(forwarded_parts(b) =~= forwarded_parts(args).update(
        3,
        forwarded_parts(args)[3] + seq!["--tag"@, tag],
    ));
}

/// Every tag that is not wanted reaches the test programs as one that is not
/// wanted, in order, and changes nothing else of what they get.
pub proof fn law_unwanted_tags_reach_the_programs(args: RunArgs, more: Vec<String>, tag: Seq<char>)
    requires
        more.deep_view() == args.not_tag.deep_view().push(tag),
    ensures
        has_more(
            forwarded(args),
            forwarded(RunArgs { not_tag: more, ..args }),
            seq!["--not-tag"@, tag],
        ),
{
    let b = RunArgs { not_tag: more, ..args };
    lemma_forwarded(args);
    lemma_forwarded(b);
    lemma_not_tag_part(args, b, tag);
    lemma_longer_part(forwarded_parts(args), forwarded_parts(b), 4, seq!["--not-tag"@, tag]);
}

proof fn lemma_not_tag_part(args: RunArgs, b: RunArgs, tag: Seq<char>)
    requires
        b.not_tag.deep_view() == args.not_tag.deep_view().push(tag),
        b == (RunArgs { not_tag: b.not_tag, ..args }),
    ensures
        forwarded_parts(b) == forwarded_parts(args).update(
            4,
            forwarded_parts(args)[4] + seq!["--not-tag"@, tag],
        ),
{
    assert(args.not_tag.deep_view().push(tag).drop_last() =~= args.not_tag.deep_view());
    assert(forwarded_parts(b) =~= forwarded_parts(args).update(
        4,
        forwarded_parts(args)[4] + seq!["--not-tag"@, tag],
    ));
}

/// Where nothing is given for the test programs, nothing reaches them,
/// whatever package and targets are asked for.
pub proof fn law_nothing_else_reaches_the_programs(args: RunArgs)
    requires
        args.jobs is None,
        args.seed is None,
        args.filter is None,
        args.tag@.len() == 0,
        args.not_tag@.len() == 0,
        !args.no_capture,
        args.retries is None,
        !args.no_preflight,
        !args.preflight_only,
        !args.continue_on_preflight_failure,
        !args.junit,
    ensures
        forwarded(args) == Seq::<Seq<char>>::empty(),
{
    let none = Seq::<Seq<char>>::empty();
    assert(args.tag.deep_view().len() == 0);
    assert(args.not_tag.deep_view().len() == 0);
    assert(none + none =~= none);
}

/// The build is of tests that are not run and whose messages are JSON; it is
/// of the package that is given, and of each target whose name is given.
pub proof fn law_build_is_of_what_is_asked_for(
    package: Seq<char>,
    test: Seq<Seq<char>>,
    name: Seq<char>,
)
    ensures
        build_args_of(None, seq![]) == seq!["test"@, "--no-run"@, "--message-format=json"@],
        has_more(
            build_args_of(None, test),
            build_args_of(Some(package), test),
            seq!["--package"@, package],
        ),
        build_args_of(None, test.push(name)) == build_args_of(None, test) + seq!["--test"@, name],
{
    let head = seq!["test"@, "--no-run"@, "--message-format=json"@];
    let names = repeated_args("--test"@, test);
    let extra = seq!["--package"@, package];
    assert(build_args_of(None, seq![]) =~= head);
    assert(build_args_of(None, test) =~= head + names);
    assert(build_args_of(Some(package), test) =~= head + extra + names);
    let less = head + names;
    assert(less.take(3) =~= head);
    assert(less.skip(3) =~= names);
    assert(test.push(name).drop_last() =~= test);
    assert(build_args_of(None, test.push(name)) =~= build_args_of(None, test) + seq![
        "--test"@,
        name,
    ]);
}

/// Programs with different file names write their parts of the report to
/// different files, each named after its program.
pub proof fn law_parts_do_not_clash(a: Seq<char>, b: Seq<char>)
    ensures
        part_name(Some(a)) == part_name(Some(b)) ==> a == b,
        a.is_prefix_of(part_name(Some(a))),
{
    let x = part_name(Some(a));
    let y = part_name(Some(b));
    assert(x.take(a.len() as int) =~= a);
    assert(y.take(b.len() as int) =~= b);
}

/// The directory that a description of a workspace names is the text that it
/// holds under that key, and there is none where it holds no text there.
pub proof fn law_target_directory(metadata: Seq<char>, dir: Seq<char>)
    ensures
        target_directory_in(metadata) == Some(dir) <==> {
            &&& json_in(metadata) matches Some(Json::Object(o))
            &&& o.contains_key("target_directory"@)
            &&& o["target_directory"@] == Json::Str(dir)
        },
{
}

/// What is said of a failed build tells its exit code.
pub proof fn law_build_failure_tells_the_code(a: i32, b: i32)
    ensures
        build_failure_text(Some(a)) == build_failure_text(Some(b)) ==> a == b,
        text::contains(build_failure_text(Some(a)), text::signed_decimal(a as int)),
{
    let head = "cargo test --no-run failed with exit code "@;
    let none: Seq<char> = seq![];
    let x = text::signed_decimal(a as int);
    let y = text::signed_decimal(b as int);
    text::lemma_stands(head, x, none);
    text::lemma_same_tail(head, x, y);
    text::lemma_signed_differ(a as int, b as int);
}

} // verus!
