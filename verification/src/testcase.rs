//! The `#[testcase]` attribute macro: what its arguments say, which test cases
//! a function gives rise to, and how they are registered.

use crate::function;
use crate::function::{Diagnostic, Place};
use crate::syntax;
use crate::syntax::{ExprText, Meta, TokenText};
use crate::text;
use vstd::prelude::*;
use vstd::string::*;

verus! {

// ── arguments of the attribute ──────────────────────────────────────────────

/// The value in `name = value`.
#[derive(Debug)]
pub struct ArgValue {
    /// Its text.
    pub text: String,
    /// What the string literal says, where it is one.
    pub literal: Option<String>,
    /// Its elements, where it is an array: each one's text, and what it says
    /// where it is a string literal.
    pub elems: Option<Vec<(String, Option<String>)>>,
}

pub struct ArgValueV {
    pub text: Seq<char>,
    pub literal: Option<Seq<char>>,
    pub elems: Option<Seq<(Seq<char>, Option<Seq<char>>)>>,
}

impl DeepView for ArgValue {
    type V = ArgValueV;

    open spec fn deep_view(&self) -> ArgValueV {
        ArgValueV {
            text: self.text@,
            literal: self.literal.deep_view(),
            elems: self.elems.deep_view(),
        }
    }
}

/// What the string literal `expr` says, where it is one.
pub open spec fn literal_in(expr: Seq<char>) -> Option<Seq<char>> {
    match syntax::expr_in(expr) {
        syntax::ExprTextV::Str(value) => Some(value),
        _ => None,
    }
}

/// The elements of the array `expr`, where it is one.
pub open spec fn elems_in(expr: Seq<char>) -> Option<Seq<(Seq<char>, Option<Seq<char>>)>> {
    match syntax::expr_in(expr) {
        syntax::ExprTextV::Array(elems) => Some(
            elems.map_values(|e: Seq<char>| (e, literal_in(e))),
        ),
        _ => None,
    }
}

/// The value of that text.
pub open spec fn value_in(expr: Seq<char>) -> ArgValueV {
    ArgValueV { text: expr, literal: literal_in(expr), elems: elems_in(expr) }
}

fn read_literal(expr: &str) -> (r: Option<String>)
    ensures
        r.deep_view() == literal_in(expr@),
{
    match syntax::read_expr(expr) {
        ExprText::Str(value) => Some(value),
        _ => None,
    }
}

fn read_elems(expr: &str) -> (r: Option<Vec<(String, Option<String>)>>)
    ensures
        r.deep_view() == elems_in(expr@),
{
    let elems = match syntax::read_expr(expr) {
        ExprText::Array(elems) => elems,
        _ => return None,
    };
    let mut out: Vec<(String, Option<String>)> = Vec::new();
    let mut i: usize = 0;
    while i < elems.len()
        invariant
            i <= elems@.len(),
            out@.len() == i,
            forall|k: int|
                0 <= k < i ==> (#[trigger] out@[k]).deep_view() == (
                    elems@[k]@,
                    literal_in(elems@[k]@),
                ),
        decreases elems@.len() - i,
    {
        out.push((elems[i].clone(), read_literal(&elems[i])));
        i += 1;
    }
    assert(out.deep_view() =~= elems.deep_view().map_values(
        |e: Seq<char>| (e, literal_in(e)),
    ));
    Some(out)
}

fn read_value(expr: String) -> (r: ArgValue)
    ensures
        r.deep_view() == value_in(expr@),
{
    let literal = read_literal(&expr);
    let elems = read_elems(&expr);
    ArgValue { text: expr, literal, elems }
}

/// One argument of `#[testcase(..)]`.
#[derive(Debug)]
pub enum Arg {
    /// `name`
    Flag { name: String },
    /// `name = value`
    Assign { name: String, value: ArgValue },
    /// `name(..)`
    List { name: String },
    /// `retry_on_error = pattern`, where a condition may follow the pattern;
    /// or why the value is no pattern.
    RetryOnError { pattern: Result<String, String> },
}

pub enum ArgV {
    Flag { name: Seq<char> },
    Assign { name: Seq<char>, value: ArgValueV },
    List { name: Seq<char> },
    RetryOnError { pattern: Result<Seq<char>, Seq<char>> },
}

impl DeepView for Arg {
    type V = ArgV;

    open spec fn deep_view(&self) -> ArgV {
        match self {
            Arg::Flag { name } => ArgV::Flag { name: name@ },
            Arg::Assign { name, value } => ArgV::Assign {
                name: name@,
                value: value.deep_view(),
            },
            Arg::List { name } => ArgV::List { name: name@ },
            Arg::RetryOnError { pattern } => ArgV::RetryOnError {
                pattern: match pattern {
                    Ok(p) => Ok(p@),
                    Err(e) => Err(e@),
                },
            },
        }
    }
}

/// The argument that `meta` is. The value of an error pattern is read as a
/// pattern.
pub open spec fn arg_of(meta: syntax::MetaV) -> ArgV {
    match meta {
        syntax::MetaV::Flag { name } => ArgV::Flag { name },
        syntax::MetaV::Assign { name, value } => if name == "retry_on_error"@ {
            ArgV::RetryOnError { pattern: syntax::pattern_in(value) }
        } else {
            ArgV::Assign { name, value: value_in(value) }
        },
        syntax::MetaV::List { name } => ArgV::List { name },
    }
}

fn arg_from(meta: Meta) -> (r: Arg)
    ensures
        r.deep_view() == arg_of(meta.deep_view()),
{
    match meta {
        Meta::Flag { name } => Arg::Flag { name },
        Meta::Assign { name, value } => if text::same(&name, "retry_on_error") {
            Arg::RetryOnError { pattern: syntax::read_pattern(&value) }
        } else {
            Arg::Assign { name, value: read_value(value) }
        },
        Meta::List { name } => Arg::List { name },
    }
}

/// The arguments that `metas` are.
pub open spec fn args_of_metas(metas: Seq<syntax::MetaV>) -> Seq<ArgV> {
    metas.map_values(|m: syntax::MetaV| arg_of(m))
}

/// The arguments that `metas` are.
pub fn args_from(metas: Vec<Meta>) -> (r: Vec<Arg>)
    ensures
        r.deep_view() == args_of_metas(metas.deep_view()),
{
    let ghost read = metas.deep_view();
    let mut out: Vec<Arg> = Vec::new();
    for meta in it: metas
        invariant
            it.seq() == metas@,
            read.len() == metas@.len(),
            forall|k: int| 0 <= k < read.len() ==> #[trigger] read[k] == metas@[k].deep_view(),
            out@.len() == it.index(),
            forall|k: int| 0 <= k < out@.len() ==> (#[trigger] out@[k]).deep_view() == arg_of(read[k]),
    {
        assert(meta.deep_view() == read[it.index() as int]);
        out.push(arg_from(meta));
    }
    assert(out.deep_view() =~= args_of_metas(read));
    out
}

/// The text of a token.
pub open spec fn token_text(token: syntax::TokenTextV) -> Seq<char> {
    match token {
        syntax::TokenTextV::Word(word) => word,
        syntax::TokenTextV::Mark { mark, joint } => seq![mark],
        syntax::TokenTextV::Other(text) => text,
    }
}

/// Whether the next token follows a token without a space.
pub open spec fn is_joint(token: syntax::TokenTextV) -> bool {
    token is Mark && token->Mark_joint
}

/// The text of tokens: a space between each two, but none behind a mark that
/// another one follows at once.
pub open spec fn tokens_text(tokens: Seq<syntax::TokenTextV>) -> Seq<char>
    decreases tokens.len(),
{
    if tokens.len() == 0 {
        seq![]
    } else {
        let before = tokens.drop_last();
        tokens_text(before) + (if before.len() == 0 || is_joint(before.last()) {
            seq![]
        } else {
            seq![' ']
        }) + token_text(tokens.last())
    }
}

fn print_tokens(tokens: &Vec<TokenText>, from: usize) -> (s: String)
    requires
        from <= tokens@.len(),
    ensures
        s@ == tokens_text(tokens.deep_view().skip(from as int)),
{
    let ghost all = tokens.deep_view().skip(from as int);
    let mut s = String::new();
    let mut i: usize = from;
    let mut joint = true;
    assert(s@ =~= tokens_text(all.take(0)));
    while i < tokens.len()
        invariant
            from <= i <= tokens@.len(),
            all == tokens.deep_view().skip(from as int),
            all.len() == tokens@.len() - from,
            joint == (i == from || is_joint(all[i - from - 1])),
            s@ == tokens_text(all.take(i - from)),
        decreases tokens@.len() - i,
    {
        proof {
            let n = i - from;
            assert(all.take(n + 1).drop_last() =~= all.take(n));
            assert(all[n] == tokens@[i as int].deep_view());
            assert(all.take(n + 1).last() == all[n]);
            if n > 0 {
                assert(all.take(n).last() == all[n - 1]);
            }
        }
        let ghost was = s@;
        if !joint {
            s.push(' ');
        }
        let ghost spaced = s@;
        match &tokens[i] {
            TokenText::Word(word) => {
                s.append(word);
                joint = false;
            },
            TokenText::Mark { mark, joint: follows } => {
                s.push(*mark);
                joint = *follows;
            },
            TokenText::Other(text) => {
                s.append(text);
                joint = false;
            },
        }
        assert(s@ =~= spaced + token_text(all[i - from]));
        assert(s@ =~= tokens_text(all.take(i - from + 1)));
        i += 1;
    }
    assert(all.take(i - from) =~= all);
    s
}

/// The pattern in `text`, and the condition that may follow it, as `matches!`
/// takes them.
pub open spec fn guarded_pattern(text: Seq<char>) -> Option<Seq<char>> {
    match syntax::arm_in(text + " => ()"@) {
        Err(e) => None,
        Ok(arm) => if arm.attrs.len() > 0 {
            None
        } else {
            Some(
                match arm.guard {
                    Some(guard) => arm.pat + " if "@ + guard,
                    None => arm.pat,
                },
            )
        },
    }
}

fn read_guarded_pattern(text: &str) -> (r: Option<String>)
    ensures
        r.deep_view() == guarded_pattern(text@),
{
    let mut arm = text.to_owned();
    arm.append(" => ()");
    let head = match syntax::read_arm(&arm) {
        Ok(head) => head,
        Err(_) => return None,
    };
    if head.attrs.len() > 0 {
        return None;
    }
    let mut pattern = head.pat;
    if let Some(guard) = head.guard {
        pattern.append(" if ");
        pattern.append(&guard);
    }
    Some(pattern)
}

/// Whether tokens begin with `retry_on_error =`.
pub open spec fn begins_pattern(tokens: Seq<syntax::TokenTextV>) -> bool {
    &&& tokens.len() >= 2
    &&& tokens[0] == syntax::TokenTextV::Word("retry_on_error"@)
    &&& tokens[1] is Mark
    &&& tokens[1]->Mark_mark == '='
}

fn starts_pattern(tokens: &Vec<TokenText>) -> (r: bool)
    ensures
        r == begins_pattern(tokens.deep_view()),
{
    if tokens.len() < 2 {
        return false;
    }
    assert(tokens.deep_view()[0] == tokens@[0].deep_view());
    assert(tokens.deep_view()[1] == tokens@[1].deep_view());
    let named = match &tokens[0] {
        TokenText::Word(word) => text::same(word, "retry_on_error"),
        _ => false,
    };
    let assigned = match &tokens[1] {
        TokenText::Mark { mark, .. } => *mark == '=',
        _ => false,
    };
    named && assigned
}

/// The argument that tokens are, where they are one. An error pattern is read
/// with the condition that may follow it, every other argument as `syn` reads
/// it.
pub open spec fn arg_in(tokens: Seq<syntax::TokenTextV>) -> Option<ArgV> {
    if begins_pattern(tokens) {
        match guarded_pattern(tokens_text(tokens.skip(2))) {
            Some(pattern) => Some(ArgV::RetryOnError { pattern: Ok(pattern) }),
            None => None,
        }
    } else {
        match syntax::metas_in(tokens_text(tokens)) {
            Ok(metas) => if metas.len() == 1 {
                Some(arg_of(metas[0]))
            } else {
                None
            },
            Err(e) => None,
        }
    }
}

fn read_arg(tokens: &Vec<TokenText>) -> (r: Option<Arg>)
    ensures
        r.deep_view() == arg_in(tokens.deep_view()),
{
    if starts_pattern(tokens) {
        return match read_guarded_pattern(&print_tokens(tokens, 2)) {
            Some(pattern) => Some(Arg::RetryOnError { pattern: Ok(pattern) }),
            None => None,
        };
    }
    assert(tokens.deep_view().skip(0) =~= tokens.deep_view());
    let mut metas = match syntax::read_metas(&print_tokens(tokens, 0)) {
        Ok(metas) => metas,
        Err(_) => return None,
    };
    let ghost read = metas.deep_view();
    if metas.len() != 1 {
        return None;
    }
    assert(read[0] == metas@[0].deep_view());
    match metas.pop() {
        Some(meta) => Some(arg_from(meta)),
        None => None,
    }
}

/// Whether a token is a comma.
pub open spec fn is_comma(token: syntax::TokenTextV) -> bool {
    token is Mark && token->Mark_mark == ','
}

/// The arguments that end at a comma of the list, and the tokens behind the
/// last of these commas. A comma at which the tokens before it are no argument
/// belongs to the argument that they begin.
pub open spec fn scanned(tokens: Seq<syntax::TokenTextV>) -> (Seq<ArgV>, Seq<syntax::TokenTextV>)
    decreases tokens.len(),
{
    if tokens.len() == 0 {
        (seq![], seq![])
    } else {
        let (args, rest) = scanned(tokens.drop_last());
        let read = arg_in(rest);
        if is_comma(tokens.last()) && read is Some {
            (args.push(read->0), seq![])
        } else {
            (args, rest.push(tokens.last()))
        }
    }
}

/// The arguments of a list of tokens, with a comma between each two and
/// possibly one at the end, where the list is one of arguments.
pub open spec fn args_of(tokens: Seq<syntax::TokenTextV>) -> Option<Seq<ArgV>> {
    let (args, rest) = scanned(tokens);
    if rest.len() == 0 {
        Some(args)
    } else {
        match arg_in(rest) {
            Some(arg) => Some(args.push(arg)),
            None => None,
        }
    }
}

/// The arguments in `attr`: those that `syn` reads; where it reads none, those
/// of the list with its conditions behind error patterns; and none where it is
/// no argument list at all.
pub open spec fn args_in(attr: Seq<char>) -> Seq<ArgV> {
    match syntax::metas_in(attr) {
        Ok(metas) => args_of_metas(metas),
        Err(e) => match syntax::tokens_in(attr) {
            Ok(tokens) => match args_of(tokens) {
                Some(args) => args,
                None => seq![],
            },
            Err(e) => seq![],
        },
    }
}

/// The arguments of a list of tokens, where the list is one of arguments.
pub fn split_args(tokens: Vec<TokenText>) -> (r: Option<Vec<Arg>>)
    ensures
        r.deep_view() == args_of(tokens.deep_view()),
{
    let ghost all = tokens.deep_view();
    let mut args: Vec<Arg> = Vec::new();
    let mut rest: Vec<TokenText> = Vec::new();
    assert(args.deep_view() =~= seq![]);
    assert(rest.deep_view() =~= seq![]);
    assert(all.take(0) =~= seq![]);
    for token in it: tokens
        invariant
            it.seq() == tokens@,
            all == tokens.deep_view(),
            (args.deep_view(), rest.deep_view()) == scanned(all.take(it.index() as int)),
    {
        let ghost n = it.index() as int;
        let ghost was_args = args.deep_view();
        let ghost was_rest = rest.deep_view();
        proof {
            assert(token.deep_view() == all[n]);
            assert(all.take(n + 1).drop_last() =~= all.take(n));
            assert(all.take(n + 1).last() == all[n]);
        }
        let comma = match &token {
            TokenText::Mark { mark, .. } => *mark == ',',
            _ => false,
        };
        let read = if comma {
            read_arg(&rest)
        } else {
            None
        };
        match read {
            Some(arg) => {
                args.push(arg);
                rest = Vec::new();
                assert(args.deep_view() =~= was_args.push(arg.deep_view()));
                assert(rest.deep_view() =~= seq![]);
            },
            None => {
                rest.push(token);
                assert(rest.deep_view() =~= was_rest.push(token.deep_view()));
            },
        }
    }
    assert(all.take(all.len() as int) =~= all);
    if rest.len() > 0 {
        let ghost was = args.deep_view();
        match read_arg(&rest) {
            Some(arg) => {
                args.push(arg);
                assert(args.deep_view() =~= was.push(arg.deep_view()));
            },
            None => return None,
        }
    }
    Some(args)
}

/// Reads the arguments in `attr`; none where it is no argument list.
pub fn read_args(attr: &str) -> (r: Vec<Arg>)
    ensures
        r.deep_view() == args_in(attr@),
{
    if let Ok(metas) = syntax::read_metas(attr) {
        return args_from(metas);
    }
    let none: Vec<Arg> = Vec::new();
    assert(none.deep_view() =~= seq![]);
    match syntax::read_tokens(attr) {
        Ok(tokens) => match split_args(tokens) {
            Some(args) => args,
            None => none,
        },
        Err(_) => none,
    }
}

/// How a test runs with respect to others.
#[derive(Debug)]
pub enum SerialMode {
    /// Together with others.
    Shared,
    /// Alone against every other test.
    Exclusive,
    /// Never at the same time as another test of the group: the group's name,
    /// as a literal's text and as what it says.
    Group { text: String, value: String },
}

pub enum SerialModeV {
    Shared,
    Exclusive,
    Group { text: Seq<char>, value: Seq<char> },
}

impl DeepView for SerialMode {
    type V = SerialModeV;

    open spec fn deep_view(&self) -> SerialModeV {
        match self {
            SerialMode::Shared => SerialModeV::Shared,
            SerialMode::Exclusive => SerialModeV::Exclusive,
            SerialMode::Group { text, value } => SerialModeV::Group { text: text@, value: value@ },
        }
    }
}

/// What the arguments of `#[testcase(..)]` say.
#[derive(Debug)]
pub struct TestcaseSpec {
    pub serial: SerialMode,
    /// The text of the timeout.
    pub timeout: Option<String>,
    pub no_timeout: bool,
    /// The text of the number of retries.
    pub retries: Option<String>,
    /// The text of the pattern of errors that are retried.
    pub retry_on_error: Option<String>,
    /// The tags: each literal's text, and what it says.
    pub tags: Vec<(String, String)>,
}

pub struct TestcaseSpecV {
    pub serial: SerialModeV,
    pub timeout: Option<Seq<char>>,
    pub no_timeout: bool,
    pub retries: Option<Seq<char>>,
    pub retry_on_error: Option<Seq<char>>,
    pub tags: Seq<(Seq<char>, Seq<char>)>,
}

impl DeepView for TestcaseSpec {
    type V = TestcaseSpecV;

    open spec fn deep_view(&self) -> TestcaseSpecV {
        TestcaseSpecV {
            serial: self.serial.deep_view(),
            timeout: self.timeout.deep_view(),
            no_timeout: self.no_timeout,
            retries: self.retries.deep_view(),
            retry_on_error: self.retry_on_error.deep_view(),
            tags: self.tags.deep_view(),
        }
    }
}

/// What no argument says.
pub open spec fn plain_spec() -> TestcaseSpecV {
    TestcaseSpecV {
        serial: SerialModeV::Shared,
        timeout: None,
        no_timeout: false,
        retries: None,
        retry_on_error: None,
        tags: seq![],
    }
}

/// Why `(text, said)` is no tag, if it is none: it is no string literal, or an
/// empty one, or one with white space in it.
pub open spec fn tag_error(said: Option<Seq<char>>) -> Option<Seq<char>> {
    match said {
        None => Some("`tags` entries must be string literals, e.g. \"smoke\""@),
        Some(value) => if value.len() == 0 {
            Some("`tags` entries must not be empty"@)
        } else if text::has_white(value) {
            Some("`tags` entries must not contain whitespace"@)
        } else {
            None
        },
    }
}

/// The tags in the list of elements of the argument at position `at`, or what
/// is wrong with the first that is none.
pub open spec fn tags_of(elems: Seq<(Seq<char>, Option<Seq<char>>)>, at: usize) -> Result<
    Seq<(Seq<char>, Seq<char>)>,
    function::DiagnosticV,
>
    decreases elems.len(),
{
    if elems.len() == 0 {
        Ok(seq![])
    } else {
        match tags_of(elems.drop_last(), at) {
            Err(d) => Err(d),
            Ok(before) => match tag_error(elems.last().1) {
                Some(e) => Err(
                    function::diag(Place::Element(at, (elems.len() - 1) as usize), e),
                ),
                None => Ok(before.push((elems.last().0, elems.last().1->0))),
            },
        }
    }
}

/// The tags that the value of `tags = [..]`, the argument at position `at`,
/// lists; or what is wrong with it.
pub open spec fn tags_value(value: ArgValueV, at: usize) -> Result<
    Seq<(Seq<char>, Seq<char>)>,
    function::DiagnosticV,
> {
    match value.elems {
        Some(elems) => tags_of(elems, at),
        None => Err(
            function::diag(
                Place::Value(at),
                "`tags` must be an array literal of string literals, e.g. tags = [\"smoke\", \"regression\"]"@,
            ),
        ),
    }
}

proof fn lemma_tags_of_error(elems: Seq<(Seq<char>, Option<Seq<char>>)>, at: usize, n: int)
    requires
        0 <= n <= elems.len(),
        tags_of(elems.take(n), at) is Err,
    ensures
        tags_of(elems, at) == tags_of(elems.take(n), at),
    decreases elems.len(),
{
    if n == elems.len() {
        assert(elems.take(n) =~= elems);
    } else {
        assert(elems.drop_last().take(n) =~= elems.take(n));
        lemma_tags_of_error(elems.drop_last(), at, n);
    }
}

fn check_tag(said: &Option<String>) -> (r: Option<&'static str>)
    ensures
        r.deep_view() == tag_error(said.deep_view()),
{
    match said {
        None => Some("`tags` entries must be string literals, e.g. \"smoke\""),
        Some(value) => if value.as_str().unicode_len() == 0 {
            Some("`tags` entries must not be empty")
        } else if text::contains_white(value) {
            Some("`tags` entries must not contain whitespace")
        } else {
            None
        },
    }
}

/// The tags that the value of `tags = [..]`, the argument at position `at`,
/// lists.
pub fn parse_tags(value: &ArgValue, at: usize) -> (r: Result<Vec<(String, String)>, Diagnostic>)
    ensures
        match r {
            Ok(tags) => tags_value(value.deep_view(), at) == Ok::<
                Seq<(Seq<char>, Seq<char>)>,
                function::DiagnosticV,
            >(tags.deep_view()),
            Err(d) => tags_value(value.deep_view(), at) == Err::<
                Seq<(Seq<char>, Seq<char>)>,
                function::DiagnosticV,
            >(d.deep_view()),
        },
{
    let elems = match &value.elems {
        Some(elems) => elems,
        None => return Err(
            function::diagnostic(
                Place::Value(at),
                "`tags` must be an array literal of string literals, e.g. tags = [\"smoke\", \"regression\"]",
            ),
        ),
    };
    let ghost all = elems.deep_view();
    let mut tags: Vec<(String, String)> = Vec::new();
    let mut i: usize = 0;
    assert(tags.deep_view() =~= seq![]);
    while i < elems.len()
        invariant
            i <= elems@.len(),
            all == elems.deep_view(),
            value.deep_view().elems == Some(all),
            tags_of(all.take(i as int), at) == Ok::<
                Seq<(Seq<char>, Seq<char>)>,
                function::DiagnosticV,
            >(tags.deep_view()),
        decreases elems@.len() - i,
    {
        proof {
            assert(all.take(i + 1).drop_last() =~= all.take(i as int));
            assert(all.take(i + 1).last() == elems@[i as int].deep_view());
        }
        if let Some(e) = check_tag(&elems[i].1) {
            proof {
                lemma_tags_of_error(all, at, i + 1);
            }
            return Err(function::diagnostic(Place::Element(at, i), e));
        }
        let ghost was = tags.deep_view();
        if let Some(said) = &elems[i].1 {
            tags.push((elems[i].0.clone(), said.clone()));
            assert(tags.deep_view() =~= was.push((elems@[i as int].0@, said@)));
        }
        i += 1;
    }
    assert(all.take(i as int) =~= all);
    Ok(tags)
}

/// What is said once the argument `arg`, at position `at`, is added to what
/// `spec` says; the last of several arguments of one name counts, but a test
/// that runs alone stays one beside a group. Arguments of other names and
/// forms say nothing.
pub open spec fn with_arg(spec: TestcaseSpecV, arg: ArgV, at: usize) -> Result<
    TestcaseSpecV,
    function::DiagnosticV,
> {
    match arg {
        ArgV::Flag { name } => Ok(
            if name == "serial"@ {
                TestcaseSpecV { serial: SerialModeV::Exclusive, ..spec }
            } else if name == "no_timeout"@ {
                TestcaseSpecV { no_timeout: true, ..spec }
            } else {
                spec
            },
        ),
        ArgV::List { name } => Ok(spec),
        ArgV::RetryOnError { pattern } => match pattern {
            Ok(pat) => Ok(TestcaseSpecV { retry_on_error: Some(pat), ..spec }),
            Err(e) => Err(
                function::diag(
                    Place::UnreadPattern(at),
                    "`retry_on_error` must be a pattern, the same syntax accepted by `matches!`: "@
                        + e,
                ),
            ),
        },
        ArgV::Assign { name, value } => if name == "serial"@ {
            match value.literal {
                Some(said) => Ok(
                    if spec.serial is Exclusive {
                        spec
                    } else {
                        TestcaseSpecV {
                            serial: SerialModeV::Group { text: value.text, value: said },
                            ..spec
                        }
                    },
                ),
                None => Err(
                    function::diag(
                        Place::Value(at),
                        "`serial` group must be a string literal, e.g. serial = \"db\""@,
                    ),
                ),
            }
        } else if name == "timeout"@ {
            Ok(TestcaseSpecV { timeout: Some(value.text), ..spec })
        } else if name == "retries"@ {
            Ok(TestcaseSpecV { retries: Some(value.text), ..spec })
        } else if name == "tags"@ {
            match tags_value(value, at) {
                Ok(tags) => Ok(TestcaseSpecV { tags, ..spec }),
                Err(d) => Err(d),
            }
        } else {
            Ok(spec)
        },
    }
}

/// What the arguments `args` say, or what is wrong with the first that is
/// wrong.
pub open spec fn said_by(args: Seq<ArgV>) -> Result<TestcaseSpecV, function::DiagnosticV>
    decreases args.len(),
{
    if args.len() == 0 {
        Ok(plain_spec())
    } else {
        match said_by(args.drop_last()) {
            Err(e) => Err(e),
            Ok(before) => with_arg(before, args.last(), (args.len() - 1) as usize),
        }
    }
}

/// What the arguments `args` say, or what is wrong with them. A timeout and
/// `no_timeout` exclude each other.
pub open spec fn spec_of_args(args: Seq<ArgV>) -> Result<TestcaseSpecV, function::DiagnosticV> {
    match said_by(args) {
        Err(e) => Err(e),
        Ok(spec) => if spec.no_timeout && spec.timeout is Some {
            Err(function::diag(Place::CallSite, timeout_conflict()@))
        } else {
            Ok(spec)
        },
    }
}

/// What is wrong with `no_timeout` beside a timeout.
pub open spec fn timeout_conflict() -> &'static str {
    "#[testcase]: `no_timeout` cannot be combined with `timeout = …`; `no_timeout` forces no timeout (opting out of any suite-wide default), while `timeout` sets an explicit one — pick one"
}

proof fn lemma_said_by_error(args: Seq<ArgV>, n: int)
    requires
        0 <= n <= args.len(),
        said_by(args.take(n)) is Err,
    ensures
        said_by(args) == said_by(args.take(n)),
    decreases args.len(),
{
    if n == args.len() {
        assert(args.take(n) =~= args);
    } else {
        assert(args.drop_last().take(n) =~= args.take(n));
        lemma_said_by_error(args.drop_last(), n);
    }
}

/// Whether a specification or a diagnostic is the one that is meant.
pub open spec fn same_spec(
    r: Result<TestcaseSpec, Diagnostic>,
    want: Result<TestcaseSpecV, function::DiagnosticV>,
) -> bool {
    match r {
        Ok(spec) => want == Ok::<TestcaseSpecV, function::DiagnosticV>(spec.deep_view()),
        Err(d) => want == Err::<TestcaseSpecV, function::DiagnosticV>(d.deep_view()),
    }
}

fn add_arg(spec: TestcaseSpec, arg: &Arg, at: usize) -> (r: Result<TestcaseSpec, Diagnostic>)
    ensures
        same_spec(r, with_arg(spec.deep_view(), arg.deep_view(), at)),
{
    let mut spec = spec;
    match arg {
        Arg::Flag { name } => {
            if text::same(name, "serial") {
                spec.serial = SerialMode::Exclusive;
            } else if text::same(name, "no_timeout") {
                spec.no_timeout = true;
            }
        },
        Arg::List { name } => {},
        Arg::RetryOnError { pattern } => match pattern {
            Ok(pat) => {
                spec.retry_on_error = Some(pat.clone());
            },
            Err(e) => {
                let mut message =
                    "`retry_on_error` must be a pattern, the same syntax accepted by `matches!`: ".to_owned();
                message.append(e);
                return Err(Diagnostic { at: Place::UnreadPattern(at), message });
            },
        },
        Arg::Assign { name, value } => {
            if text::same(name, "serial") {
                match &value.literal {
                    Some(said) => if !matches!(spec.serial, SerialMode::Exclusive) {
                        spec.serial = SerialMode::Group {
                            text: value.text.clone(),
                            value: said.clone(),
                        };
                    },
                    None => return Err(
                        function::diagnostic(
                            Place::Value(at),
                            "`serial` group must be a string literal, e.g. serial = \"db\"",
                        ),
                    ),
                }
            } else if text::same(name, "timeout") {
                spec.timeout = Some(value.text.clone());
            } else if text::same(name, "retries") {
                spec.retries = Some(value.text.clone());
            } else if text::same(name, "tags") {
                match parse_tags(value, at) {
                    Ok(tags) => {
                        spec.tags = tags;
                    },
                    Err(d) => return Err(d),
                }
            }
        },
    }
    Ok(spec)
}

/// What the arguments `args` say, or what is wrong with them.
pub fn spec_of(args: &Vec<Arg>) -> (r: Result<TestcaseSpec, Diagnostic>)
    ensures
        same_spec(r, spec_of_args(args.deep_view())),
{
    let ghost all = args.deep_view();
    let mut spec = TestcaseSpec {
        serial: SerialMode::Shared,
        timeout: None,
        no_timeout: false,
        retries: None,
        retry_on_error: None,
        tags: Vec::new(),
    };
    assert(spec.tags.deep_view() =~= seq![]);
    let mut i: usize = 0;
    while i < args.len()
        invariant
            i <= args@.len(),
            all == args.deep_view(),
            said_by(all.take(i as int)) == Ok::<TestcaseSpecV, function::DiagnosticV>(
                spec.deep_view(),
            ),
        decreases args@.len() - i,
    {
        proof {
            assert(all.take(i + 1).drop_last() =~= all.take(i as int));
            assert(all.take(i + 1).last() == args@[i as int].deep_view());
        }
        match add_arg(spec, &args[i], i) {
            Ok(next) => {
                spec = next;
            },
            Err(d) => {
                proof {
                    lemma_said_by_error(all, i + 1);
                }
                return Err(d);
            },
        }
        i += 1;
    }
    assert(all.take(i as int) =~= all);
    if spec.no_timeout && spec.timeout.is_some() {
        return Err(
            function::diagnostic(
                Place::CallSite,
                "#[testcase]: `no_timeout` cannot be combined with `timeout = …`; `no_timeout` forces no timeout (opting out of any suite-wide default), while `timeout` sets an explicit one — pick one",
            ),
        );
    }
    Ok(spec)
}

/// Reads the arguments of `#[testcase(attr)]`. A text that is no argument list
/// says nothing.
pub fn parse_spec(attr: &str) -> (r: Result<TestcaseSpec, Diagnostic>)
    ensures
        same_spec(r, spec_of_args(args_in(attr@))),
{
    spec_of(&read_args(attr))
}

// ── laws ────────────────────────────────────────────────────────────────────

/// Whether one of the arguments is the flag `name`.
pub open spec fn has_flag(args: Seq<ArgV>, name: Seq<char>) -> bool {
    exists|i: int| 0 <= i < args.len() && #[trigger] args[i] == (ArgV::Flag { name })
}

/// Whether an argument gives `name` a value.
pub open spec fn assigns(arg: ArgV, name: Seq<char>) -> bool {
    arg matches ArgV::Assign { name: n, value } && n == name
}

/// The position of the last argument that gives `name` a value.
pub open spec fn last_assigned(args: Seq<ArgV>, name: Seq<char>) -> Option<int>
    decreases args.len(),
{
    if args.len() == 0 {
        None
    } else if assigns(args.last(), name) {
        Some(args.len() - 1)
    } else {
        last_assigned(args.drop_last(), name)
    }
}

/// The position of the last argument that gives an error pattern.
pub open spec fn last_pattern(args: Seq<ArgV>) -> Option<int>
    decreases args.len(),
{
    if args.len() == 0 {
        None
    } else if args.last() is RetryOnError {
        Some(args.len() - 1)
    } else {
        last_pattern(args.drop_last())
    }
}

proof fn lemma_last(args: Seq<ArgV>, name: Seq<char>)
    ensures
        last_assigned(args, name) matches Some(i) ==> 0 <= i < args.len() && assigns(args[i], name),
        last_pattern(args) matches Some(i) ==> 0 <= i < args.len() && args[i] is RetryOnError,
    decreases args.len(),
{
    if args.len() > 0 {
        lemma_last(args.drop_last(), name);
    }
}

proof fn lemma_has_flag(args: Seq<ArgV>, name: Seq<char>)
    requires
        args.len() > 0,
    ensures
        has_flag(args, name) <==> has_flag(args.drop_last(), name) || args.last() == (ArgV::Flag {
            name,
        }),
{
    let head = args.drop_last();
    if has_flag(head, name) {
        let i = choose|i: int| 0 <= i < head.len() && #[trigger] head[i] == (ArgV::Flag { name });
        assert(args[i] == (ArgV::Flag { name }));
    }
    if args.last() == (ArgV::Flag { name }) {
        assert(args[args.len() - 1] == (ArgV::Flag { name }));
    }
    if has_flag(args, name) {
        let i = choose|i: int| 0 <= i < args.len() && #[trigger] args[i] == (ArgV::Flag { name });
        if i < head.len() {
            assert(head[i] == (ArgV::Flag { name }));
        }
    }
}

proof fn lemma_names_of_arguments()
    ensures
        "serial"@ != "timeout"@,
        "serial"@ != "no_timeout"@,
        "serial"@ != "retries"@,
        "serial"@ != "tags"@,
        "timeout"@ != "retries"@,
        "timeout"@ != "tags"@,
        "retries"@ != "tags"@,
{
    reveal_strlit("serial");
    reveal_strlit("timeout");
    reveal_strlit("no_timeout");
    reveal_strlit("retries");
    reveal_strlit("tags");
    assert("serial"@.len() == 6 && "no_timeout"@.len() == 10 && "tags"@.len() == 4);
    assert("timeout"@.len() == 7 && "retries"@.len() == 7);
    assert("timeout"@[0] == 't' && "retries"@[0] == 'r');
}

/// What the arguments of a test say: it runs alone exactly where `serial` is
/// among them as a flag, and otherwise belongs to the group that the last
/// `serial = ".."` names; it has the timeout, the number of retries, the error
/// pattern and the tags that the last argument for each of them gives, and
/// none where there is none; and it runs without a timeout exactly where
/// `no_timeout` is among them, which a timeout excludes.
pub proof fn law_what_the_arguments_say(args: Seq<ArgV>)
    requires
        args.len() <= usize::MAX,
        spec_of_args(args) is Ok,
    ensures
        ({
            let spec = spec_of_args(args)->Ok_0;
            &&& spec.serial is Exclusive <==> has_flag(args, "serial"@)
            &&& !has_flag(args, "serial"@) ==> match last_assigned(args, "serial"@) {
                Some(i) => spec.serial matches SerialModeV::Group { text, value } && text
                    == args[i]->value.text && Some(value) == args[i]->value.literal,
                None => spec.serial is Shared,
            }
            &&& spec.no_timeout <==> has_flag(args, "no_timeout"@)
            &&& spec.timeout == match last_assigned(args, "timeout"@) {
                Some(i) => Some(args[i]->value.text),
                None => None,
            }
            &&& spec.retries == match last_assigned(args, "retries"@) {
                Some(i) => Some(args[i]->value.text),
                None => None,
            }
            &&& match last_assigned(args, "tags"@) {
                Some(i) => tags_value(args[i]->value, i as usize) == Ok::<
                    Seq<(Seq<char>, Seq<char>)>,
                    function::DiagnosticV,
                >(spec.tags),
                None => spec.tags.len() == 0,
            }
            &&& match last_pattern(args) {
                Some(i) => args[i]->pattern == Ok::<Seq<char>, Seq<char>>(spec.retry_on_error->0)
                    && spec.retry_on_error is Some,
                None => spec.retry_on_error is None,
            }
            &&& !(spec.no_timeout && spec.timeout is Some)
        }),
{
    lemma_said(args);
}

proof fn lemma_said(args: Seq<ArgV>)
    requires
        args.len() <= usize::MAX,
        said_by(args) is Ok,
    ensures
        ({
            let spec = said_by(args)->Ok_0;
            &&& spec.serial is Exclusive <==> has_flag(args, "serial"@)
            &&& !has_flag(args, "serial"@) ==> match last_assigned(args, "serial"@) {
                Some(i) => spec.serial matches SerialModeV::Group { text, value } && text
                    == args[i]->value.text && Some(value) == args[i]->value.literal,
                None => spec.serial is Shared,
            }
            &&& spec.no_timeout <==> has_flag(args, "no_timeout"@)
            &&& spec.timeout == match last_assigned(args, "timeout"@) {
                Some(i) => Some(args[i]->value.text),
                None => None,
            }
            &&& spec.retries == match last_assigned(args, "retries"@) {
                Some(i) => Some(args[i]->value.text),
                None => None,
            }
            &&& match last_assigned(args, "tags"@) {
                Some(i) => tags_value(args[i]->value, i as usize) == Ok::<
                    Seq<(Seq<char>, Seq<char>)>,
                    function::DiagnosticV,
                >(spec.tags),
                None => spec.tags.len() == 0,
            }
            &&& match last_pattern(args) {
                Some(i) => args[i]->pattern == Ok::<Seq<char>, Seq<char>>(spec.retry_on_error->0)
                    && spec.retry_on_error is Some,
                None => spec.retry_on_error is None,
            }
        }),
    decreases args.len(),
{
    lemma_names_of_arguments();
    if args.len() > 0 {
        let head = args.drop_last();
        lemma_said(head);
        lemma_has_flag(args, "serial"@);
        lemma_has_flag(args, "no_timeout"@);
        lemma_last(head, "serial"@);
        lemma_last(head, "timeout"@);
        lemma_last(head, "retries"@);
        lemma_last(head, "tags"@);
        assert forall|i: int| 0 <= i < head.len() implies head[i] == args[i] by {}
    }
}

/// Whether something is wrong with an argument by itself.
pub open spec fn is_wrong(arg: ArgV) -> bool {
    match arg {
        ArgV::RetryOnError { pattern } => pattern is Err,
        ArgV::Assign { name, value } => {
            ||| name == "serial"@ && value.literal is None
            ||| name == "tags"@ && match value.elems {
                None => true,
                Some(elems) => exists|k: int|
                    0 <= k < elems.len() && !is_tag((#[trigger] elems[k]).1),
            }
        },
        _ => false,
    }
}

/// Whether an element of a list is a tag: a string literal that is not empty
/// and holds no white space.
pub open spec fn is_tag(said: Option<Seq<char>>) -> bool {
    said matches Some(value) && value.len() > 0 && forall|i: int|
        0 <= i < value.len() ==> !text::white(#[trigger] value[i])
}

/// The tags of a list are its elements, in order, and something is wrong with
/// the list exactly where one of them is no tag.
pub proof fn law_tags_of_a_list(elems: Seq<(Seq<char>, Option<Seq<char>>)>, at: usize)
    ensures
        tags_of(elems, at) is Ok <==> forall|k: int|
            0 <= k < elems.len() ==> is_tag((#[trigger] elems[k]).1),
        tags_of(elems, at) matches Ok(tags) ==> {
            &&& tags.len() == elems.len()
            &&& forall|k: int|
                0 <= k < elems.len() ==> (#[trigger] tags[k]).0 == elems[k].0 && Some(tags[k].1)
                    == elems[k].1
        },
    decreases elems.len(),
{
    if elems.len() > 0 {
        let head = elems.drop_last();
        law_tags_of_a_list(head, at);
        let x = elems.last();
        assert(tag_error(x.1) is None <==> is_tag(x.1)) by {
            if let Some(value) = x.1 {
                assert(text::has_white(value) <==> exists|i: int|
                    0 <= i < value.len() && text::white(#[trigger] value[i]));
            }
        }
        assert forall|k: int| 0 <= k < head.len() implies head[k] == elems[k] by {}
        if tags_of(elems, at) is Ok {
            assert forall|k: int| 0 <= k < elems.len() implies is_tag((#[trigger] elems[k]).1) by {
                if k < head.len() {
                    assert(is_tag(head[k].1));
                }
            }
            let tags = tags_of(elems, at)->Ok_0;
            let was = tags_of(head, at)->Ok_0;
            assert forall|k: int| 0 <= k < elems.len() implies (#[trigger] tags[k]).0 == elems[k].0
                && Some(tags[k].1) == elems[k].1 by {
                if k < head.len() {
                    assert(tags[k] == was[k]);
                }
            }
        }
        if forall|k: int| 0 <= k < elems.len() ==> is_tag((#[trigger] elems[k]).1) {
            assert forall|k: int| 0 <= k < head.len() implies is_tag((#[trigger] head[k]).1) by {
                assert(is_tag(elems[k].1));
            }
            assert(is_tag(elems[elems.len() - 1].1));
        }
    }
}

/// Something is wrong with the arguments of a test exactly where it is with
/// one of them by itself, or where they give a timeout and exclude any.
pub proof fn law_when_arguments_are_refused(args: Seq<ArgV>)
    requires
        args.len() <= usize::MAX,
    ensures
        said_by(args) is Err <==> exists|i: int| 0 <= i < args.len() && is_wrong(#[trigger] args[i]),
        spec_of_args(args) is Err <==> said_by(args) is Err || (has_flag(args, "no_timeout"@)
            && last_assigned(args, "timeout"@) is Some),
    decreases args.len(),
{
    if args.len() > 0 {
        let head = args.drop_last();
        let x = args.last();
        let at = (args.len() - 1) as usize;
        law_when_arguments_are_refused(head);
        lemma_names_of_arguments();
        if let ArgV::Assign { name, value } = x {
            if let Some(elems) = value.elems {
                law_tags_of_a_list(elems, at);
            }
        }
        assert(said_by(head) is Ok ==> (with_arg(said_by(head)->Ok_0, x, at) is Err <==> is_wrong(
            x,
        )));
        if exists|i: int| 0 <= i < args.len() && is_wrong(#[trigger] args[i]) {
            let i = choose|i: int| 0 <= i < args.len() && is_wrong(#[trigger] args[i]);
            if i < head.len() {
                assert(is_wrong(head[i]));
            }
        }
        if exists|i: int| 0 <= i < head.len() && is_wrong(#[trigger] head[i]) {
            let i = choose|i: int| 0 <= i < head.len() && is_wrong(#[trigger] head[i]);
            assert(is_wrong(args[i]));
        }
        if is_wrong(x) {
            assert(is_wrong(args[args.len() - 1]));
        }
    }
    if said_by(args) is Ok {
        lemma_said(args);
    }
}

/// The condition that follows an error pattern stays behind it.
pub proof fn law_condition_stays(text: Seq<char>)
    requires
        syntax::arm_in(text + " => ()"@) is Ok,
    ensures
        ({
            let arm = syntax::arm_in(text + " => ()"@)->Ok_0;
            &&& guarded_pattern(text) is Some <==> arm.attrs.len() == 0
            &&& guarded_pattern(text) matches Some(p) ==> {
                &&& arm.pat.is_prefix_of(p)
                &&& arm.guard is None ==> p == arm.pat
                &&& arm.guard matches Some(g) ==> p == arm.pat + " if "@ + g
            }
        }),
{
    let arm = syntax::arm_in(text + " => ()"@)->Ok_0;
    if let Some(p) = guarded_pattern(text) {
        assert(p.take(arm.pat.len() as int) =~= arm.pat);
    }
}

proof fn lemma_scanned_behind(
    a: Seq<syntax::TokenTextV>,
    b: Seq<syntax::TokenTextV>,
)
    requires
        scanned(a).1.len() == 0,
    ensures
        scanned(a + b) == (scanned(a).0 + scanned(b).0, scanned(b).1),
    decreases b.len(),
{
    if b.len() == 0 {
        assert(a + b =~= a);
        assert(scanned(a).0 + scanned(b).0 =~= scanned(a).0);
        assert(scanned(a).1 =~= scanned(b).1);
    } else {
        lemma_scanned_behind(a, b.drop_last());
        assert((a + b).drop_last() =~= a + b.drop_last());
        assert((a + b).last() == b.last());
        let rest = scanned(b.drop_last()).1;
        if is_comma(b.last()) && arg_in(rest) is Some {
            assert(scanned(a + b).0 =~= scanned(a).0 + scanned(b).0);
        }
    }
}

/// Arguments stand in a list with a comma between each two: those of a list
/// that a comma follows are read as they are by themselves, and so are those
/// behind it. A comma may follow the last one.
pub proof fn law_arguments_are_separated(
    a: Seq<syntax::TokenTextV>,
    comma: syntax::TokenTextV,
    b: Seq<syntax::TokenTextV>,
)
    requires
        is_comma(comma),
        args_of(a) is Some,
        scanned(a).1.len() > 0,
    ensures
        args_of(a.push(comma)) == args_of(a),
        args_of(a.push(comma) + b) == match args_of(b) {
            Some(args) => Some(args_of(a)->0 + args),
            None => None,
        },
{
    let c = a.push(comma);
    assert(c.drop_last() =~= a);
    assert(c.last() == comma);
    lemma_scanned_behind(c, b);
    if let Some(args) = args_of(b) {
        assert(args_of(c + b)->0 =~= args_of(a)->0 + args);
    }
}

/// The text of tokens holds the text of each of them.
pub proof fn law_text_of_tokens(tokens: Seq<syntax::TokenTextV>, i: int)
    requires
        0 <= i < tokens.len(),
    ensures
        text::contains(tokens_text(tokens), token_text(tokens[i])),
    decreases tokens.len(),
{
    let before = tokens.drop_last();
    let gap: Seq<char> = if before.len() == 0 || is_joint(before.last()) {
        seq![]
    } else {
        seq![' ']
    };
    let none: Seq<char> = seq![];
    assert(tokens_text(tokens) == tokens_text(before) + gap + token_text(tokens.last()));
    if i == tokens.len() - 1 {
        text::lemma_stands(tokens_text(before) + gap, token_text(tokens[i]), none);
    } else {
        law_text_of_tokens(before, i);
        assert(before[i] == tokens[i]);
        text::lemma_contains_within(
            none,
            tokens_text(before),
            gap + token_text(tokens.last()),
            token_text(tokens[i]),
        );
        assert(none + tokens_text(before) + (gap + token_text(tokens.last())) =~= tokens_text(
            tokens,
        ));
    }
}

/// The arguments of an attribute that `syn` reads are taken over one by one:
/// a word stays that word, a name with a value keeps its name, but for the
/// error pattern, which is no ordinary value.
pub proof fn law_arguments_of_an_attribute(attr: Seq<char>)
    requires
        syntax::metas_in(attr) is Ok,
    ensures
        ({
            let metas = syntax::metas_in(attr)->Ok_0;
            &&& args_in(attr).len() == metas.len()
            &&& forall|i: int|
                0 <= i < metas.len() ==> match #[trigger] metas[i] {
                    syntax::MetaV::Flag { name } => args_in(attr)[i] == (ArgV::Flag { name }),
                    syntax::MetaV::List { name } => args_in(attr)[i] == (ArgV::List { name }),
                    syntax::MetaV::Assign { name, value } => if name == "retry_on_error"@ {
                        args_in(attr)[i] == (ArgV::RetryOnError {
                            pattern: syntax::pattern_in(value),
                        })
                    } else {
                        args_in(attr)[i] == (ArgV::Assign { name, value: value_in(value) })
                    },
                }
        }),
{
}

} // verus!
