//! The test cases that a `#[testcase]` function gives rise to: its case rows,
//! what each of its parameters stands for, and every combination of them.

use crate::function;
use crate::function::{Attr, Diagnostic, Function, Param, Place};
use crate::text;
use crate::types;
use vstd::prelude::*;
use vstd::string::*;

verus! {

// ── the signature that an error pattern asks for ────────────────────────────

/// What is wrong with a test that declares an error pattern, if anything: it
/// has to return a `Result` whose error type is one that a pattern can be
/// matched against.
pub open spec fn retry_signature_error(
    has_output: bool,
    is_result: bool,
    unmatchable: bool,
) -> Option<function::DiagnosticV> {
    if !has_output {
        Some(
            function::diag(
                Place::Signature,
                "#[testcase(retry_on_error = ...)] requires the test to return `Result<(), ConcreteType>` (a named error type the matcher can pattern-match); the function currently has no return type"@,
            ),
        )
    } else if !is_result {
        Some(
            function::diag(
                Place::Output,
                "#[testcase(retry_on_error = ...)] requires the test to return `Result<(), ConcreteType>` where `ConcreteType` is a named error type (not `Box<dyn Error + Send + Sync>` / `rigtest::Error`); switch the signature to a concrete error type so the matcher can pattern-match on its variants"@,
            ),
        )
    } else if unmatchable {
        Some(
            function::diag(
                Place::ErrorType,
                "#[testcase(retry_on_error = ...)] cannot match against a boxed trait object; switch the return type to `Result<(), ConcreteType>` with a named error type (for example a custom `#[derive(Debug)] enum MyError { Network, ... }`) so the matcher can pattern-match on its variants"@,
            ),
        )
    } else {
        None
    }
}

/// What is wrong with a test that declares an error pattern, if anything.
pub fn check_retry_signature(has_output: bool, is_result: bool, unmatchable: bool) -> (r: Option<
    Diagnostic,
>)
    ensures
        r.deep_view() == retry_signature_error(has_output, is_result, unmatchable),
{
    if !has_output {
        Some(
            function::diagnostic(
                Place::Signature,
                "#[testcase(retry_on_error = ...)] requires the test to return `Result<(), ConcreteType>` (a named error type the matcher can pattern-match); the function currently has no return type",
            ),
        )
    } else if !is_result {
        Some(
            function::diagnostic(
                Place::Output,
                "#[testcase(retry_on_error = ...)] requires the test to return `Result<(), ConcreteType>` where `ConcreteType` is a named error type (not `Box<dyn Error + Send + Sync>` / `rigtest::Error`); switch the signature to a concrete error type so the matcher can pattern-match on its variants",
            ),
        )
    } else if unmatchable {
        Some(
            function::diagnostic(
                Place::ErrorType,
                "#[testcase(retry_on_error = ...)] cannot match against a boxed trait object; switch the return type to `Result<(), ConcreteType>` with a named error type (for example a custom `#[derive(Debug)] enum MyError { Network, ... }`) so the matcher can pattern-match on its variants",
            ),
        )
    } else {
        None
    }
}

/// What is wrong with the return type `output` of a test that declares an
/// error pattern, if anything.
pub open spec fn retry_output_error(output: Option<Seq<char>>) -> Option<function::DiagnosticV> {
    match output {
        None => retry_signature_error(false, false, false),
        Some(ty) => match types::err_type(ty) {
            None => retry_signature_error(true, false, false),
            Some(err) => retry_signature_error(true, true, types::unmatchable(err)),
        },
    }
}

/// What is wrong with the return type of a test that declares an error
/// pattern, if anything.
pub fn validate_retry_on_error_signature(func: &Function) -> (r: Option<Diagnostic>)
    ensures
        r.deep_view() == retry_output_error(func.deep_view().output),
{
    match &func.output {
        None => check_retry_signature(false, false, false),
        Some(ty) => match types::result_err_type(ty) {
            None => check_retry_signature(true, false, false),
            Some(err) => check_retry_signature(true, true, types::err_type_is_unmatchable(&err)),
        },
    }
}

// ── case rows ───────────────────────────────────────────────────────────────

/// A `#[case(..)]` or `#[case::label(..)]` row.
#[derive(Debug)]
pub struct CaseRow {
    /// The label behind `case::`.
    pub label: Option<String>,
    /// The values, one for each parameter that takes one from the row.
    pub values: Vec<String>,
    /// The position of the row among the function's attributes.
    pub attr: usize,
}

pub struct CaseRowV {
    pub label: Option<Seq<char>>,
    pub values: Seq<Seq<char>>,
    pub attr: usize,
}

impl DeepView for CaseRow {
    type V = CaseRowV;

    open spec fn deep_view(&self) -> CaseRowV {
        CaseRowV {
            label: self.label.deep_view(),
            values: self.values.deep_view(),
            attr: self.attr,
        }
    }
}

/// The label of a case row: `None` where the attribute is no case row,
/// `Some(None)` where it is one without a label.
pub open spec fn row_label(attr: function::AttrV) -> Option<Option<Seq<char>>> {
    match attr.path {
        Some(path) => if path.1.len() == 1 && path.1[0] == "case"@ {
            Some(None)
        } else if path.1.len() == 2 && path.1[0] == "case"@ {
            Some(Some(path.1[1]))
        } else {
            None
        },
        None => None,
    }
}

fn label_of(attr: &Attr) -> (r: Option<Option<String>>)
    ensures
        r.deep_view() == row_label(attr.deep_view()),
{
    match &attr.path {
        Some(path) => {
            let segments = &path.1;
            assert(forall|k: int|
                0 <= k < segments@.len() ==> segments.deep_view()[k] == (#[trigger] segments@[k])@);
            if segments.len() == 1 && text::same(&segments[0], "case") {
                Some(None)
            } else if segments.len() == 2 && text::same(&segments[0], "case") {
                Some(Some(segments[1].clone()))
            } else {
                None
            }
        },
        None => None,
    }
}

/// The case rows among `attrs`, and the positions of the other attributes, in
/// order; or what is wrong with the first row that is wrong.
pub open spec fn rows_of(attrs: Seq<function::AttrV>) -> Result<
    (Seq<CaseRowV>, Seq<usize>),
    function::DiagnosticV,
>
    decreases attrs.len(),
{
    if attrs.len() == 0 {
        Ok((seq![], seq![]))
    } else {
        let at = (attrs.len() - 1) as usize;
        match rows_of(attrs.drop_last()) {
            Err(d) => Err(d),
            Ok((rows, kept)) => match row_label(attrs.last()) {
                None => Ok((rows, kept.push(at))),
                Some(label) => match attrs.last().args {
                    Ok(values) => Ok((rows.push(CaseRowV { label, values, attr: at }), kept)),
                    Err(e) => Err(function::diag(Place::UnreadAttribute(at), e)),
                },
            },
        }
    }
}

proof fn lemma_rows_of_error(attrs: Seq<function::AttrV>, n: int)
    requires
        0 <= n <= attrs.len(),
        rows_of(attrs.take(n)) is Err,
    ensures
        rows_of(attrs) == rows_of(attrs.take(n)),
    decreases attrs.len(),
{
    if n == attrs.len() {
        assert(attrs.take(n) =~= attrs);
    } else {
        assert(attrs.drop_last().take(n) =~= attrs.take(n));
        lemma_rows_of_error(attrs.drop_last(), n);
    }
}

/// The case rows among `attrs`, and the positions of the other attributes.
pub fn extract_case_rows(attrs: &Vec<Attr>) -> (r: Result<(Vec<CaseRow>, Vec<usize>), Diagnostic>)
    ensures
        match r {
            Ok(x) => rows_of(attrs.deep_view()) == Ok::<
                (Seq<CaseRowV>, Seq<usize>),
                function::DiagnosticV,
            >((x.0.deep_view(), x.1@)),
            Err(d) => rows_of(attrs.deep_view()) == Err::<
                (Seq<CaseRowV>, Seq<usize>),
                function::DiagnosticV,
            >(d.deep_view()),
        },
{
    let ghost all = attrs.deep_view();
    let mut rows: Vec<CaseRow> = Vec::new();
    let mut kept: Vec<usize> = Vec::new();
    let mut i: usize = 0;
    assert(rows.deep_view() =~= seq![]);
    while i < attrs.len()
        invariant
            i <= attrs@.len(),
            all == attrs.deep_view(),
            rows_of(all.take(i as int)) == Ok::<
                (Seq<CaseRowV>, Seq<usize>),
                function::DiagnosticV,
            >((rows.deep_view(), kept@)),
        decreases attrs@.len() - i,
    {
        proof {
            assert(all.take(i + 1).drop_last() =~= all.take(i as int));
            assert(all.take(i + 1).last() == attrs@[i as int].deep_view());
        }
        let ghost was = rows.deep_view();
        match label_of(&attrs[i]) {
            None => {
                kept.push(i);
            },
            Some(label) => match &attrs[i].args {
                Ok(values) => {
                    let row = CaseRow { label, values: clone_texts(values), attr: i };
                    rows.push(row);
                    assert(rows.deep_view() =~= was.push(row.deep_view()));
                },
                Err(e) => {
                    proof {
                        lemma_rows_of_error(all, i + 1);
                    }
                    return Err(Diagnostic { at: Place::UnreadAttribute(i), message: e.clone() });
                },
            },
        }
        i += 1;
    }
    assert(all.take(i as int) =~= all);
    Ok((rows, kept))
}

/// A copy of a list of texts.
pub fn clone_texts(v: &Vec<String>) -> (r: Vec<String>)
    ensures
        r.deep_view() == v.deep_view(),
{
    let mut out: Vec<String> = Vec::new();
    let mut i: usize = 0;
    while i < v.len()
        invariant
            i <= v@.len(),
            out@.len() == i,
            forall|k: int| 0 <= k < i ==> (#[trigger] out@[k])@ == v@[k]@,
        decreases v@.len() - i,
    {
        out.push(v[i].clone());
        i += 1;
    }
    assert(out.deep_view() =~= v.deep_view());
    out
}

// ── parameters ──────────────────────────────────────────────────────────────

/// What a parameter stands for.
#[derive(Debug)]
pub enum ParamKind {
    /// The test's context.
    Ctx,
    /// A value of the case row.
    Case,
    /// One of the listed values.
    Values(Vec<String>),
    /// The fixture of that name.
    Fixture(String),
}

pub enum ParamKindV {
    Ctx,
    Case,
    Values(Seq<Seq<char>>),
    Fixture(Seq<char>),
}

impl DeepView for ParamKind {
    type V = ParamKindV;

    open spec fn deep_view(&self) -> ParamKindV {
        match self {
            ParamKind::Ctx => ParamKindV::Ctx,
            ParamKind::Case => ParamKindV::Case,
            ParamKind::Values(values) => ParamKindV::Values(values.deep_view()),
            ParamKind::Fixture(name) => ParamKindV::Fixture(name@),
        }
    }
}

/// What the attributes of a parameter mark it as.
pub struct Markers {
    /// Whether it is marked `#[case]`.
    pub is_case: bool,
    /// The values that `#[values(..)]` lists.
    pub values: Option<Vec<String>>,
    /// The positions of its other attributes.
    pub kept: Vec<usize>,
}

pub struct MarkersV {
    pub is_case: bool,
    pub values: Option<Seq<Seq<char>>>,
    pub kept: Seq<usize>,
}

impl DeepView for Markers {
    type V = MarkersV;

    open spec fn deep_view(&self) -> MarkersV {
        MarkersV { is_case: self.is_case, values: self.values.deep_view(), kept: self.kept@ }
    }
}

/// Whether `attr` is named `name`, and nothing but that.
pub open spec fn is_ident(attr: function::AttrV, name: Seq<char>) -> bool {
    attr.path matches Some(path) && path.0 == name
}

fn attr_is(attr: &Attr, name: &str) -> (r: bool)
    ensures
        r == is_ident(attr.deep_view(), name@),
{
    match &attr.path {
        Some(path) => text::same(&path.0, name),
        None => false,
    }
}

/// The values that a `#[values(..)]` attribute lists, or what is wrong with
/// it; `param` and `at` are the positions of its parameter and its own.
pub open spec fn values_of(attr: function::AttrV, param: usize, at: usize) -> Result<
    Seq<Seq<char>>,
    function::DiagnosticV,
> {
    match attr.args {
        Ok(values) => if values.len() == 0 {
            Err(
                function::diag(
                    Place::ParamAttribute(param, at),
                    "#[values(...)] must list at least one value"@,
                ),
            )
        } else {
            Ok(values)
        },
        Err(e) => Err(function::diag(Place::UnreadParamAttribute(param, at), e)),
    }
}

/// The values that a `#[values(..)]` attribute lists; `param` and `at` are the
/// positions of its parameter and its own.
pub fn parse_values_attr(attr: &Attr, param: usize, at: usize) -> (r: Result<
    Vec<String>,
    Diagnostic,
>)
    ensures
        match r {
            Ok(values) => values_of(attr.deep_view(), param, at) == Ok::<
                Seq<Seq<char>>,
                function::DiagnosticV,
            >(values.deep_view()),
            Err(d) => values_of(attr.deep_view(), param, at) == Err::<
                Seq<Seq<char>>,
                function::DiagnosticV,
            >(d.deep_view()),
        },
{
    match &attr.args {
        Ok(values) => if values.len() == 0 {
            Err(
                function::diagnostic(
                    Place::ParamAttribute(param, at),
                    "#[values(...)] must list at least one value",
                ),
            )
        } else {
            Ok(clone_texts(values))
        },
        Err(e) => Err(
            Diagnostic { at: Place::UnreadParamAttribute(param, at), message: e.clone() },
        ),
    }
}

/// What the attributes `attrs` of the parameter at position `param` mark it
/// as, or what is wrong with the first that is wrong. The last of several
/// value lists counts.
pub open spec fn markers_of(attrs: Seq<function::AttrV>, param: usize) -> Result<
    MarkersV,
    function::DiagnosticV,
>
    decreases attrs.len(),
{
    if attrs.len() == 0 {
        Ok(MarkersV { is_case: false, values: None, kept: seq![] })
    } else {
        let at = (attrs.len() - 1) as usize;
        match markers_of(attrs.drop_last(), param) {
            Err(d) => Err(d),
            Ok(before) => if is_ident(attrs.last(), "case"@) {
                Ok(MarkersV { is_case: true, ..before })
            } else if is_ident(attrs.last(), "values"@) {
                match values_of(attrs.last(), param, at) {
                    Ok(values) => Ok(MarkersV { values: Some(values), ..before }),
                    Err(d) => Err(d),
                }
            } else {
                Ok(MarkersV { kept: before.kept.push(at), ..before })
            },
        }
    }
}

proof fn lemma_markers_of_error(attrs: Seq<function::AttrV>, param: usize, n: int)
    requires
        0 <= n <= attrs.len(),
        markers_of(attrs.take(n), param) is Err,
    ensures
        markers_of(attrs, param) == markers_of(attrs.take(n), param),
    decreases attrs.len(),
{
    if n == attrs.len() {
        assert(attrs.take(n) =~= attrs);
    } else {
        assert(attrs.drop_last().take(n) =~= attrs.take(n));
        lemma_markers_of_error(attrs.drop_last(), param, n);
    }
}

/// What the attributes `attrs` of the parameter at position `param` mark it
/// as.
pub fn read_markers(attrs: &Vec<Attr>, param: usize) -> (r: Result<Markers, Diagnostic>)
    ensures
        match r {
            Ok(m) => markers_of(attrs.deep_view(), param) == Ok::<
                MarkersV,
                function::DiagnosticV,
            >(m.deep_view()),
            Err(d) => markers_of(attrs.deep_view(), param) == Err::<
                MarkersV,
                function::DiagnosticV,
            >(d.deep_view()),
        },
{
    let ghost all = attrs.deep_view();
    let mut is_case = false;
    let mut values: Option<Vec<String>> = None;
    let mut kept: Vec<usize> = Vec::new();
    let mut i: usize = 0;
    while i < attrs.len()
        invariant
            i <= attrs@.len(),
            all == attrs.deep_view(),
            markers_of(all.take(i as int), param) == Ok::<MarkersV, function::DiagnosticV>(
                MarkersV { is_case, values: values.deep_view(), kept: kept@ },
            ),
        decreases attrs@.len() - i,
    {
        proof {
            assert(all.take(i + 1).drop_last() =~= all.take(i as int));
            assert(all.take(i + 1).last() == attrs@[i as int].deep_view());
        }
        if attr_is(&attrs[i], "case") {
            is_case = true;
        } else if attr_is(&attrs[i], "values") {
            match parse_values_attr(&attrs[i], param, i) {
                Ok(v) => {
                    values = Some(v);
                },
                Err(d) => {
                    proof {
                        lemma_markers_of_error(all, param, i + 1);
                    }
                    return Err(d);
                },
            }
        } else {
            kept.push(i);
        }
        i += 1;
    }
    assert(all.take(i as int) =~= all);
    Ok(Markers { is_case, values, kept })
}

/// What the parameter `p`, at position `at`, stands for, and the positions of
/// its attributes that are no markers; or what is wrong with it.
pub open spec fn kind_of(p: function::ParamV, ctx_seen: bool, at: usize) -> Result<
    (ParamKindV, Seq<usize>),
    function::DiagnosticV,
> {
    match p {
        function::ParamV::Receiver => Err(
            function::diag(
                Place::Param(at),
                "#[testcase] functions cannot take a `self` parameter"@,
            ),
        ),
        function::ParamV::Typed { attrs, ident, ty, is_context } => match markers_of(attrs, at) {
            Err(d) => Err(d),
            Ok(m) => if m.is_case && m.values is Some {
                Err(
                    function::diag(
                        Place::Param(at),
                        "a parameter cannot be tagged with both #[case] and #[values]; choose one dimension for it"@,
                    ),
                )
            } else if m.is_case {
                Ok((ParamKindV::Case, m.kept))
            } else if m.values is Some {
                Ok((ParamKindV::Values(m.values->0), m.kept))
            } else if is_context {
                if ctx_seen {
                    Err(
                        function::diag(
                            Place::Param(at),
                            "#[testcase] accepts at most one `Arc<TestContext>` parameter"@,
                        ),
                    )
                } else {
                    Ok((ParamKindV::Ctx, m.kept))
                }
            } else {
                match ident {
                    Some(name) => Ok((ParamKindV::Fixture(name), m.kept)),
                    None => Err(
                        function::diag(
                            Place::ParamPattern(at),
                            "#[testcase] fixture parameter must be a plain identifier that names a #[fixture] in scope (patterns such as tuples or `_` are not supported)"@,
                        ),
                    ),
                }
            },
        },
    }
}

fn classify_param(p: &Param, ctx_seen: bool, at: usize) -> (r: Result<
    (ParamKind, Vec<usize>),
    Diagnostic,
>)
    ensures
        match r {
            Ok(x) => kind_of(p.deep_view(), ctx_seen, at) == Ok::<
                (ParamKindV, Seq<usize>),
                function::DiagnosticV,
            >((x.0.deep_view(), x.1@)),
            Err(d) => kind_of(p.deep_view(), ctx_seen, at) == Err::<
                (ParamKindV, Seq<usize>),
                function::DiagnosticV,
            >(d.deep_view()),
        },
{
    let (attrs, ident, is_context) = match p {
        Param::Receiver => return Err(
            function::diagnostic(
                Place::Param(at),
                "#[testcase] functions cannot take a `self` parameter",
            ),
        ),
        Param::Typed { attrs, ident, ty, is_context } => (attrs, ident, *is_context),
    };
    let m = match read_markers(attrs, at) {
        Ok(m) => m,
        Err(d) => return Err(d),
    };
    if m.is_case && m.values.is_some() {
        return Err(
            function::diagnostic(
                Place::Param(at),
                "a parameter cannot be tagged with both #[case] and #[values]; choose one dimension for it",
            ),
        );
    }
    if m.is_case {
        return Ok((ParamKind::Case, m.kept));
    }
    if let Some(values) = m.values {
        return Ok((ParamKind::Values(values), m.kept));
    }
    if is_context {
        if ctx_seen {
            return Err(
                function::diagnostic(
                    Place::Param(at),
                    "#[testcase] accepts at most one `Arc<TestContext>` parameter",
                ),
            );
        }
        return Ok((ParamKind::Ctx, m.kept));
    }
    match ident {
        Some(name) => Ok((ParamKind::Fixture(name.clone()), m.kept)),
        None => Err(
            function::diagnostic(
                Place::ParamPattern(at),
                "#[testcase] fixture parameter must be a plain identifier that names a #[fixture] in scope (patterns such as tuples or `_` are not supported)",
            ),
        ),
    }
}

/// What each of the parameters stands for, and the positions of each one's
/// attributes that are no markers; or what is wrong with the first that is
/// wrong.
pub open spec fn kinds_of(params: Seq<function::ParamV>) -> Result<
    (Seq<ParamKindV>, Seq<Seq<usize>>),
    function::DiagnosticV,
>
    decreases params.len(),
{
    if params.len() == 0 {
        Ok((seq![], seq![]))
    } else {
        match kinds_of(params.drop_last()) {
            Err(d) => Err(d),
            Ok((kinds, kept)) => match kind_of(
                params.last(),
                kinds.contains(ParamKindV::Ctx),
                (params.len() - 1) as usize,
            ) {
                Err(d) => Err(d),
                Ok((kind, k)) => Ok((kinds.push(kind), kept.push(k))),
            },
        }
    }
}

proof fn lemma_kinds_of_error(params: Seq<function::ParamV>, n: int)
    requires
        0 <= n <= params.len(),
        kinds_of(params.take(n)) is Err,
    ensures
        kinds_of(params) == kinds_of(params.take(n)),
    decreases params.len(),
{
    if n == params.len() {
        assert(params.take(n) =~= params);
    } else {
        assert(params.drop_last().take(n) =~= params.take(n));
        lemma_kinds_of_error(params.drop_last(), n);
    }
}

/// What each of the parameters stands for, and the positions of each one's
/// attributes that are no markers.
pub fn classify_params(params: &Vec<Param>) -> (r: Result<
    (Vec<ParamKind>, Vec<Vec<usize>>),
    Diagnostic,
>)
    ensures
        match r {
            Ok(x) => kinds_of(params.deep_view()) == Ok::<
                (Seq<ParamKindV>, Seq<Seq<usize>>),
                function::DiagnosticV,
            >((x.0.deep_view(), x.1.deep_view())),
            Err(d) => kinds_of(params.deep_view()) == Err::<
                (Seq<ParamKindV>, Seq<Seq<usize>>),
                function::DiagnosticV,
            >(d.deep_view()),
        },
{
    let ghost all = params.deep_view();
    let mut kinds: Vec<ParamKind> = Vec::new();
    let mut kept: Vec<Vec<usize>> = Vec::new();
    let mut ctx_seen = false;
    let mut i: usize = 0;
    assert(kinds.deep_view() =~= seq![]);
    assert(kept.deep_view() =~= seq![]);
    while i < params.len()
        invariant
            i <= params@.len(),
            all == params.deep_view(),
            ctx_seen == kinds.deep_view().contains(ParamKindV::Ctx),
            kinds_of(all.take(i as int)) == Ok::<
                (Seq<ParamKindV>, Seq<Seq<usize>>),
                function::DiagnosticV,
            >((kinds.deep_view(), kept.deep_view())),
        decreases params@.len() - i,
    {
        proof {
            assert(all.take(i + 1).drop_last() =~= all.take(i as int));
            assert(all.take(i + 1).last() == params@[i as int].deep_view());
        }
        let ghost was = kinds.deep_view();
        let ghost was_kept = kept.deep_view();
        match classify_param(&params[i], ctx_seen, i) {
            Err(d) => {
                proof {
                    lemma_kinds_of_error(all, i + 1);
                }
                return Err(d);
            },
            Ok((kind, k)) => {
                let is_ctx = matches!(kind, ParamKind::Ctx);
                kinds.push(kind);
                kept.push(k);
                ctx_seen = ctx_seen || is_ctx;
                proof {
                    assert(kinds.deep_view() =~= was.push(kind.deep_view()));
                    assert(k.deep_view() =~= k@);
                    assert(kept.deep_view() =~= was_kept.push(k@));
                    let now = was.push(kind.deep_view());
                    if was.contains(ParamKindV::Ctx) {
                        let x = was.index_of(ParamKindV::Ctx);
                        assert(now[x] == ParamKindV::Ctx);
                    }
                    if is_ctx {
                        assert(now[was.len() as int] == ParamKindV::Ctx);
                    }
                    if now.contains(ParamKindV::Ctx) && !is_ctx {
                        let x = now.index_of(ParamKindV::Ctx);
                        assert(was[x] == ParamKindV::Ctx);
                    }
                }
            },
        }
        i += 1;
    }
    assert(all.take(i as int) =~= all);
    Ok((kinds, kept))
}

// ── rows against parameters ─────────────────────────────────────────────────

/// The number of parameters among the first `n` that take a value from the
/// case row.
pub open spec fn cases_before(kinds: Seq<ParamKindV>, n: int) -> int
    decreases n,
{
    if n <= 0 {
        0
    } else {
        cases_before(kinds, n - 1) + if kinds[n - 1] is Case {
            1int
        } else {
            0
        }
    }
}

/// The position of the first parameter that takes a value from the case row.
pub open spec fn first_case(kinds: Seq<ParamKindV>) -> int
    decreases kinds.len(),
{
    if kinds.len() == 0 || kinds[0] is Case {
        0
    } else {
        1 + first_case(kinds.skip(1))
    }
}

/// Whether the row gives another number of values than `want`.
pub open spec fn misfit(row: CaseRowV, want: int) -> bool {
    row.values.len() != want
}

/// What is wrong with the first row that gives another number of values than
/// `want`, if any does.
pub open spec fn first_misfit(rows: Seq<CaseRowV>, want: int) -> Option<function::DiagnosticV>
    decreases rows.len(),
{
    if rows.len() == 0 {
        None
    } else if misfit(rows[0], want) {
        Some(
            function::diag(
                Place::Attribute(rows[0].attr),
                "#[case(...)] has "@ + text::decimal(rows[0].values.len())
                    + " value(s) but the function has "@ + text::decimal(want as nat)
                    + " #[case]-tagged parameter(s); every row must supply exactly one value per tagged parameter"@,
            ),
        )
    } else {
        first_misfit(rows.skip(1), want)
    }
}

/// What is wrong with the case rows against the parameters, if anything: rows
/// without a parameter that takes their values, such a parameter without rows,
/// or a row with too few or too many values.
pub open spec fn shape_error(rows: Seq<CaseRowV>, kinds: Seq<ParamKindV>) -> Option<
    function::DiagnosticV,
> {
    let want = cases_before(kinds, kinds.len() as int);
    if rows.len() > 0 && want == 0 {
        Some(
            function::diag(
                Place::Attribute(rows[0].attr),
                "#[case(...)] rows are present but no function parameter is tagged with #[case]; add `#[case]` to each parameter that should receive a per-row value"@,
            ),
        )
    } else if rows.len() == 0 && want > 0 {
        Some(
            function::diag(
                Place::Param(first_case(kinds) as usize),
                "function parameter is tagged with #[case] but no #[case(...)] rows are stacked above the function; add one or more `#[case(value, ...)]` attributes"@,
            ),
        )
    } else {
        first_misfit(rows, want)
    }
}

proof fn lemma_first_misfit(rows: Seq<CaseRowV>, want: int, n: int)
    requires
        0 <= n <= rows.len(),
        forall|k: int| 0 <= k < n ==> !misfit(#[trigger] rows[k], want),
    ensures
        first_misfit(rows, want) == first_misfit(rows.skip(n), want),
    decreases n,
{
    if n == 0 {
        assert(rows.skip(0) =~= rows);
    } else {
        assert forall|k: int| 0 <= k < n - 1 implies !misfit(
            #[trigger] rows.skip(1)[k],
            want,
        ) by {
            assert(rows.skip(1)[k] == rows[k + 1]);
        }
        lemma_first_misfit(rows.skip(1), want, n - 1);
        assert(rows.skip(1).skip(n - 1) =~= rows.skip(n));
        assert(!misfit(rows[0], want));
    }
}

proof fn lemma_first_case(kinds: Seq<ParamKindV>, n: int)
    requires
        0 <= n <= kinds.len(),
        forall|k: int| 0 <= k < n ==> !(#[trigger] kinds[k] is Case),
        n < kinds.len() ==> kinds[n] is Case,
    ensures
        first_case(kinds) == n,
    decreases n,
{
    if n > 0 {
        assert(!(kinds[0] is Case));
        assert forall|k: int| 0 <= k < n - 1 implies !(#[trigger] kinds.skip(1)[k] is Case) by {
            assert(kinds.skip(1)[k] == kinds[k + 1]);
        }
        if n < kinds.len() {
            assert(kinds.skip(1)[n - 1] == kinds[n]);
        }
        lemma_first_case(kinds.skip(1), n - 1);
    }
}

/// What is wrong with the case rows against the parameters, if anything.
pub fn validate_case_shape(rows: &Vec<CaseRow>, kinds: &Vec<ParamKind>) -> (r: Option<Diagnostic>)
    ensures
        r.deep_view() == shape_error(rows.deep_view(), kinds.deep_view()),
{
    let ghost ks = kinds.deep_view();
    let ghost rs = rows.deep_view();
    let mut want: usize = 0;
    let mut first: usize = 0;
    let mut i: usize = 0;
    while i < kinds.len()
        invariant
            i <= kinds@.len(),
            ks == kinds.deep_view(),
            want <= i,
            want == cases_before(ks, i as int),
            want == 0 ==> first == 0 && forall|k: int| 0 <= k < i ==> !(#[trigger] ks[k] is Case),
            want > 0 ==> first < i && ks[first as int] is Case && forall|k: int|
                0 <= k < first ==> !(#[trigger] ks[k] is Case),
        decreases kinds@.len() - i,
    {
        assert(ks[i as int] == kinds@[i as int].deep_view());
        if matches!(kinds[i], ParamKind::Case) {
            if want == 0 {
                first = i;
            }
            want += 1;
        }
        i += 1;
    }
    if rows.len() > 0 && want == 0 {
        assert(rs[0] == rows@[0].deep_view());
        return Some(
            function::diagnostic(
                Place::Attribute(rows[0].attr),
                "#[case(...)] rows are present but no function parameter is tagged with #[case]; add `#[case]` to each parameter that should receive a per-row value",
            ),
        );
    }
    if rows.len() == 0 && want > 0 {
        proof {
            lemma_first_case(ks, first as int);
        }
        return Some(
            function::diagnostic(
                Place::Param(first),
                "function parameter is tagged with #[case] but no #[case(...)] rows are stacked above the function; add one or more `#[case(value, ...)]` attributes",
            ),
        );
    }
    let mut j: usize = 0;
    while j < rows.len()
        invariant
            j <= rows@.len(),
            rs == rows.deep_view(),
            ks == kinds.deep_view(),
            want == cases_before(ks, ks.len() as int),
            !(rows@.len() > 0 && want == 0),
            !(rows@.len() == 0 && want > 0),
            forall|k: int| 0 <= k < j ==> !misfit(#[trigger] rs[k], want as int),
        decreases rows@.len() - j,
    {
        assert(rs[j as int] == rows@[j as int].deep_view());
        if rows[j].values.len() != want {
            let mut message = "#[case(...)] has ".to_owned();
            message.append(&text::number(rows[j].values.len() as u128));
            message.append(" value(s) but the function has ");
            message.append(&text::number(want as u128));
            message.append(
                " #[case]-tagged parameter(s); every row must supply exactly one value per tagged parameter",
            );
            proof {
                lemma_first_misfit(rs, want as int, j as int);
                assert(rs.skip(j as int)[0] == rs[j as int]);
            }
            return Some(Diagnostic { at: Place::Attribute(rows[j].attr), message });
        }
        j += 1;
    }
    proof {
        lemma_first_misfit(rs, want as int, rs.len() as int);
    }
    None
}

// ── laws ────────────────────────────────────────────────────────────────────

/// The segments of an attribute's path.
pub open spec fn segments(attr: function::AttrV) -> Seq<Seq<char>> {
    match attr.path {
        Some(path) => path.1,
        None => seq![],
    }
}

/// Every attribute of a function is either a case row or stays, and which of
/// the two does not depend on the others. A row has the label and the values
/// of its attribute; rows and attributes keep their order.
pub proof fn law_rows_and_attributes(attrs: Seq<function::AttrV>, i: int)
    requires
        attrs.len() <= usize::MAX,
        rows_of(attrs) is Ok,
        0 <= i < attrs.len(),
    ensures
        ({
            let (rows, kept) = rows_of(attrs)->Ok_0;
            let path = attrs[i].path;
            let is_row = path matches Some(p) && (p.1 == seq!["case"@] || (p.1.len() == 2 && p.1[0]
                == "case"@));
            &&& rows.len() + kept.len() == attrs.len()
            &&& !is_row <==> kept.contains(i as usize)
            &&& is_row ==> exists|k: int|
                {
                    &&& 0 <= k < rows.len()
                    &&& (#[trigger] rows[k]).attr == i
                    &&& attrs[i].args == Ok::<Seq<Seq<char>>, Seq<char>>(rows[k].values)
                    &&& rows[k].label == if segments(attrs[i]).len() == 2 {
                        Some(segments(attrs[i])[1])
                    } else {
                        None
                    }
                }
            &&& forall|a: int, b: int|
                0 <= a < b < rows.len() ==> (#[trigger] rows[a]).attr < (#[trigger] rows[b]).attr
                    < attrs.len()
            &&& forall|a: int| 0 <= a < rows.len() ==> (#[trigger] rows[a]).attr < attrs.len()
            &&& forall|a: int, b: int|
                0 <= a < b < kept.len() ==> (#[trigger] kept[a]) < (#[trigger] kept[b])
            &&& forall|a: int| 0 <= a < kept.len() ==> (#[trigger] kept[a]) < attrs.len()
        }),
    decreases attrs.len(),
{
    let head = attrs.drop_last();
    let n = head.len() as int;
    let x = attrs.last();
    let (rows, kept) = rows_of(attrs)->Ok_0;
    let (was_rows, was_kept) = rows_of(head)->Ok_0;
    if n > 0 {
        let j = if i < n {
            i
        } else {
            0
        };
        law_rows_and_attributes(head, j);
        assert(head[j] == attrs[j]);
    }
    let path = x.path;
    let last_is_row = path matches Some(p) && (p.1 == seq!["case"@] || (p.1.len() == 2 && p.1[0]
        == "case"@));
    assert(last_is_row <==> row_label(x) is Some) by {
        if let Some(p) = path {
            if p.1.len() == 1 && p.1[0] == "case"@ {
                assert(p.1 =~= seq!["case"@]);
            }
        }
    }
    if row_label(x) is None {
        assert(rows == was_rows);
        assert(kept == was_kept.push(n as usize));
        assert(kept[was_kept.len() as int] == n as usize);
        if i < n {
            assert(kept.contains(i as usize) <==> was_kept.contains(i as usize)) by {
                if was_kept.contains(i as usize) {
                    assert(kept[was_kept.index_of(i as usize)] == i as usize);
                }
                if kept.contains(i as usize) {
                    let k = kept.index_of(i as usize);
                    assert(k < was_kept.len());
                    assert(was_kept[k] == i as usize);
                }
            }
        }
        assert forall|a: int, b: int| 0 <= a < b < kept.len() implies (#[trigger] kept[a]) < (
        #[trigger] kept[b]) by {
            if n > 0 && b == kept.len() - 1 {
                assert(was_kept[a] < head.len());
            }
        }
    } else {
        assert(kept == was_kept);
        let row = rows[was_rows.len() as int];
        assert(rows == was_rows.push(row));
        assert(row.attr == n);
        if i < n {
            let p = attrs[i].path;
            if p matches Some(q) && (q.1 == seq!["case"@] || (q.1.len() == 2 && q.1[0]
                == "case"@)) {
                let k = choose|k: int|
                    {
                        &&& 0 <= k < was_rows.len()
                        &&& (#[trigger] was_rows[k]).attr == i
                        &&& attrs[i].args == Ok::<Seq<Seq<char>>, Seq<char>>(was_rows[k].values)
                        &&& was_rows[k].label == if segments(attrs[i]).len() == 2 {
                            Some(segments(attrs[i])[1])
                        } else {
                            None
                        }
                    };
                assert(rows[k] == was_rows[k]);
            }
        } else {
            if kept.contains(n as usize) {
                let k = kept.index_of(n as usize);
                assert(was_kept[k] < head.len());
            }
        }
        assert forall|a: int, b: int| 0 <= a < b < rows.len() implies (#[trigger] rows[a]).attr < (
        #[trigger] rows[b]).attr < attrs.len() by {
            if b == rows.len() - 1 {
                assert(was_rows[a].attr < head.len());
                assert(rows[a] == was_rows[a]);
            } else {
                assert(rows[a] == was_rows[a] && rows[b] == was_rows[b]);
            }
        }
        assert forall|a: int| 0 <= a < rows.len() implies (#[trigger] rows[a]).attr
            < attrs.len() by {
            if a < was_rows.len() {
                assert(rows[a] == was_rows[a]);
            }
        }
    }
}

/// Nothing is wrong with the case rows of a function exactly where there are
/// neither rows nor parameters that take their values, or both and every row
/// gives a value for each such parameter and no more.
pub proof fn law_rows_fit_the_parameters(rows: Seq<CaseRowV>, kinds: Seq<ParamKindV>)
    ensures
        ({
            let wanted = kinds.filter(|k: ParamKindV| k is Case).len();
            shape_error(rows, kinds) is None <==> (rows.len() == 0 <==> wanted == 0) && forall|
                i: int,
            |
                0 <= i < rows.len() ==> (#[trigger] rows[i]).values.len() == wanted
        }),
{
    lemma_wanted(kinds, kinds.len() as int);
    assert(kinds.take(kinds.len() as int) =~= kinds);
    let want = cases_before(kinds, kinds.len() as int);
    lemma_first_misfit_none(rows, want);
}

proof fn lemma_wanted(kinds: Seq<ParamKindV>, n: int)
    requires
        0 <= n <= kinds.len(),
    ensures
        cases_before(kinds, n) == kinds.take(n).filter(|k: ParamKindV| k is Case).len(),
    decreases n,
{
    let case = |k: ParamKindV| k is Case;
    if n == 0 {
        reveal(Seq::filter);
        assert(kinds.take(0).filter(case).len() == 0);
    } else {
        lemma_wanted(kinds, n - 1);
        assert(kinds.take(n) =~= kinds.take(n - 1).push(kinds[n - 1]));
        text::lemma_filter_push(kinds.take(n - 1), kinds[n - 1], case);
    }
}

proof fn lemma_first_misfit_none(rows: Seq<CaseRowV>, want: int)
    ensures
        first_misfit(rows, want) is None <==> forall|i: int|
            0 <= i < rows.len() ==> (#[trigger] rows[i]).values.len() == want,
    decreases rows.len(),
{
    if rows.len() > 0 {
        let rest = rows.skip(1);
        lemma_first_misfit_none(rest, want);
        if first_misfit(rows, want) is None {
            assert forall|i: int| 0 <= i < rows.len() implies (#[trigger] rows[i]).values.len()
                == want by {
                if i > 0 {
                    assert(rest[i - 1] == rows[i]);
                }
            }
        }
        if forall|i: int| 0 <= i < rows.len() ==> (#[trigger] rows[i]).values.len() == want {
            assert(rows[0].values.len() == want);
            assert forall|i: int| 0 <= i < rest.len() implies (#[trigger] rest[i]).values.len()
                == want by {
                assert(rest[i] == rows[i + 1]);
            }
        }
    }
}

/// Whether one of the attributes is named `name`.
pub open spec fn marked(attrs: Seq<function::AttrV>, name: Seq<char>) -> bool {
    exists|i: int| 0 <= i < attrs.len() && is_ident(#[trigger] attrs[i], name)
}

proof fn lemma_markers(attrs: Seq<function::AttrV>, param: usize)
    requires
        markers_of(attrs, param) is Ok,
    ensures
        markers_of(attrs, param)->Ok_0.is_case <==> marked(attrs, "case"@),
        markers_of(attrs, param)->Ok_0.values is Some <==> marked(attrs, "values"@),
        markers_of(attrs, param)->Ok_0.values matches Some(values) ==> exists|i: int|
            {
                &&& 0 <= i < attrs.len()
                &&& is_ident(#[trigger] attrs[i], "values"@)
                &&& attrs[i].args == Ok::<Seq<Seq<char>>, Seq<char>>(values)
                &&& forall|k: int|
                    i < k < attrs.len() ==> !is_ident(#[trigger] attrs[k], "values"@)
            },
    decreases attrs.len(),
{
    if attrs.len() > 0 {
        let head = attrs.drop_last();
        let n = head.len() as int;
        lemma_markers(head, param);
        reveal_strlit("case");
        reveal_strlit("values");
        assert("case"@.len() == 4 && "values"@.len() == 6);
        assert forall|name: Seq<char>| #[trigger] marked(attrs, name) <==> marked(head, name)
            || is_ident(attrs.last(), name) by {
            if marked(head, name) {
                let i = choose|i: int| 0 <= i < head.len() && is_ident(#[trigger] head[i], name);
                assert(is_ident(attrs[i], name));
            }
            if is_ident(attrs.last(), name) {
                assert(is_ident(attrs[n], name));
            }
            if marked(attrs, name) {
                let i = choose|i: int| 0 <= i < attrs.len() && is_ident(#[trigger] attrs[i], name);
                if i < n {
                    assert(is_ident(head[i], name));
                }
            }
        }
        if let Some(values) = markers_of(attrs, param)->Ok_0.values {
            if is_ident(attrs.last(), "values"@) {
                assert(is_ident(attrs[n], "values"@));
            } else {
                let i = choose|i: int|
                    {
                        &&& 0 <= i < head.len()
                        &&& is_ident(#[trigger] head[i], "values"@)
                        &&& head[i].args == Ok::<Seq<Seq<char>>, Seq<char>>(values)
                        &&& forall|k: int|
                            i < k < head.len() ==> !is_ident(#[trigger] head[k], "values"@)
                    };
                assert(is_ident(attrs[i], "values"@));
                assert forall|k: int| i < k < attrs.len() implies !is_ident(
                    #[trigger] attrs[k],
                    "values"@,
                ) by {
                    if k < n {
                        assert(head[k] == attrs[k]);
                    }
                }
            }
        }
    }
}

/// A parameter takes its value from the case rows exactly where it is marked
/// `#[case]`, and has listed values exactly where it is marked
/// `#[values(..)]`, those of the last such mark; both at a time it cannot be.
/// Of the others, that of the context's type stands for the context, and any
/// other for the fixture of its own name.
pub proof fn law_what_a_parameter_stands_for(
    attrs: Seq<function::AttrV>,
    ident: Option<Seq<char>>,
    ty: Seq<char>,
    is_context: bool,
    ctx_seen: bool,
    at: usize,
)
    ensures
        ({
            let p = function::ParamV::Typed { attrs, ident, ty, is_context };
            let case = marked(attrs, "case"@);
            let listed = marked(attrs, "values"@);
            match kind_of(p, ctx_seen, at) {
                Ok((kind, kept)) => {
                    &&& !(case && listed)
                    &&& kind is Case <==> case
                    &&& kind is Values <==> listed
                    &&& kind is Ctx <==> !case && !listed && is_context
                    &&& kind is Ctx ==> !ctx_seen
                    &&& kind matches ParamKindV::Fixture(name) ==> ident == Some(name)
                    &&& kind matches ParamKindV::Values(values) ==> values.len() > 0 && exists|
                        i: int,
                    |
                        {
                            &&& 0 <= i < attrs.len()
                            &&& is_ident(#[trigger] attrs[i], "values"@)
                            &&& attrs[i].args == Ok::<Seq<Seq<char>>, Seq<char>>(values)
                            &&& forall|k: int|
                                i < k < attrs.len() ==> !is_ident(#[trigger] attrs[k], "values"@)
                        }
                },
                Err(d) => markers_of(attrs, at) is Err || (case && listed) || (!case && !listed
                    && is_context && ctx_seen) || (!case && !listed && !is_context
                    && ident is None),
            }
        }),
        kind_of(function::ParamV::Receiver, ctx_seen, at) is Err,
{
    if markers_of(attrs, at) is Ok {
        lemma_markers(attrs, at);
        lemma_values_not_empty(attrs, at);
    }
}

proof fn lemma_values_not_empty(attrs: Seq<function::AttrV>, param: usize)
    requires
        markers_of(attrs, param) is Ok,
    ensures
        markers_of(attrs, param)->Ok_0.values matches Some(values) ==> values.len() > 0,
    decreases attrs.len(),
{
    if attrs.len() > 0 {
        lemma_values_not_empty(attrs.drop_last(), param);
    }
}

/// An error pattern is refused exactly where the test returns no `Result`, or
/// one whose error type no pattern can be matched against.
pub proof fn law_when_a_pattern_is_refused(output: Option<Seq<char>>)
    ensures
        retry_output_error(output) is None <==> (output matches Some(ty) && (types::err_type(
            ty,
        ) matches Some(err) && !types::unmatchable(err))),
        retry_output_error(output) matches Some(d) ==> (d.at is Signature <==> output is None),
{
}

/// The attributes of a parameter that are no markers stay, and no other does.
pub proof fn law_attributes_of_a_parameter(attrs: Seq<function::AttrV>, param: usize, i: int)
    requires
        attrs.len() <= usize::MAX,
        markers_of(attrs, param) is Ok,
        0 <= i < attrs.len(),
    ensures
        ({
            let kept = markers_of(attrs, param)->Ok_0.kept;
            &&& kept.contains(i as usize) <==> !is_ident(attrs[i], "case"@) && !is_ident(
                attrs[i],
                "values"@,
            )
            &&& forall|a: int| 0 <= a < kept.len() ==> (#[trigger] kept[a]) < attrs.len()
            &&& forall|a: int, b: int|
                0 <= a < b < kept.len() ==> (#[trigger] kept[a]) < (#[trigger] kept[b])
        }),
    decreases attrs.len(),
{
    let head = attrs.drop_last();
    let n = head.len() as int;
    let kept = markers_of(attrs, param)->Ok_0.kept;
    let was = markers_of(head, param)->Ok_0.kept;
    if n > 0 {
        let j = if i < n {
            i
        } else {
            0
        };
        law_attributes_of_a_parameter(head, param, j);
        assert(head[j] == attrs[j]);
    }
    if is_ident(attrs.last(), "case"@) || is_ident(attrs.last(), "values"@) {
        assert(kept == was);
        if kept.contains(n as usize) {
            assert(was[was.index_of(n as usize)] < head.len());
        }
    } else {
        assert(kept == was.push(n as usize));
        assert(kept[was.len() as int] == n as usize);
        if i < n {
            if was.contains(i as usize) {
                assert(kept[was.index_of(i as usize)] == i as usize);
            }
            if kept.contains(i as usize) {
                let k = kept.index_of(i as usize);
                assert(k < was.len());
                assert(was[k] == i as usize);
            }
        }
    }
}

/// What is said of the first row with too few or too many values stands at
/// that row, and tells how many there are and how many there should be.
pub proof fn law_first_wrong_row_is_told(rows: Seq<CaseRowV>, want: nat, i: int)
    requires
        0 <= i < rows.len(),
        rows[i].values.len() != want,
        forall|k: int| 0 <= k < i ==> (#[trigger] rows[k]).values.len() == want,
    ensures
        ({
            let d = first_misfit(rows, want as int)->0;
            &&& d.at == Place::Attribute(rows[i].attr)
            &&& text::contains(d.message, text::decimal(rows[i].values.len()) + " value(s)"@)
            &&& text::contains(d.message, text::decimal(want) + " #[case]-tagged parameter(s)"@)
        }),
    decreases rows.len(),
{
    if i > 0 {
        let rest = rows.skip(1);
        assert(rows[0].values.len() == want);
        assert forall|k: int| 0 <= k < i - 1 implies (#[trigger] rest[k]).values.len() == want by {
            assert(rest[k] == rows[k + 1]);
        }
        law_first_wrong_row_is_told(rest, want, i - 1);
    } else {
        let x = text::decimal(rows[0].values.len());
        let y = text::decimal(want);
        lemma_row_literals();
        lemma_row_pieces(
            "#[case(...)] has "@,
            x,
            " value(s)"@,
            " but the function has "@,
            y,
            " #[case]-tagged parameter(s)"@,
            "; every row must supply exactly one value per tagged parameter"@,
        );
    }
}

proof fn lemma_row_literals()
    ensures
        " value(s) but the function has "@ == " value(s)"@ + " but the function has "@,
        " #[case]-tagged parameter(s); every row must supply exactly one value per tagged parameter"@
            == " #[case]-tagged parameter(s)"@
            + "; every row must supply exactly one value per tagged parameter"@,
{
    reveal_strlit(" value(s) but the function has ");
    reveal_strlit(" value(s)");
    reveal_strlit(" but the function has ");
    assert(" value(s) but the function has "@ =~= " value(s)"@ + " but the function has "@);
    reveal_strlit(
        " #[case]-tagged parameter(s); every row must supply exactly one value per tagged parameter",
    );
    reveal_strlit(" #[case]-tagged parameter(s)");
    reveal_strlit("; every row must supply exactly one value per tagged parameter");
    assert(" #[case]-tagged parameter(s); every row must supply exactly one value per tagged parameter"@
        =~= " #[case]-tagged parameter(s)"@
        + "; every row must supply exactly one value per tagged parameter"@);
}

proof fn lemma_row_pieces(
    a: Seq<char>,
    x: Seq<char>,
    v: Seq<char>,
    b: Seq<char>,
    y: Seq<char>,
    p: Seq<char>,
    e: Seq<char>,
)
    ensures
        text::contains(a + x + (v + b) + y + (p + e), x + v),
        text::contains(a + x + (v + b) + y + (p + e), y + p),
{
    lemma_row_regroup(a, x, v, b, y, p, e);
    text::lemma_stands(a, x + v, b + y + p + e);
    text::lemma_stands(a + x + v + b, y + p, e);
}

proof fn lemma_row_regroup(
    a: Seq<char>,
    x: Seq<char>,
    v: Seq<char>,
    b: Seq<char>,
    y: Seq<char>,
    p: Seq<char>,
    e: Seq<char>,
)
    ensures
        a + (x + v) + (b + y + p + e) == a + x + (v + b) + y + (p + e),
        (a + x + v + b) + (y + p) + e == a + x + (v + b) + y + (p + e),
{
    assert(a + (x + v) + (b + y + p + e) =~= a + x + (v + b) + y + (p + e));
    assert((a + x + v + b) + (y + p) + e =~= a + x + (v + b) + y + (p + e));
}

/// The parameters are taken one by one and in order, each for itself, but that
/// no two of them stand for the context; and where each stands for something
/// and at most one for the context, nothing is wrong with them.
pub proof fn law_parameters_one_by_one(params: Seq<function::ParamV>)
    ensures
        kinds_of(params) matches Ok((kinds, kept)) ==> {
            &&& kinds.len() == params.len()
            &&& kept.len() == params.len()
            &&& forall|i: int|
                0 <= i < params.len() ==> kind_of(#[trigger] params[i], false, i as usize) == Ok::<
                    (ParamKindV, Seq<usize>),
                    function::DiagnosticV,
                >((kinds[i], kept[i]))
            &&& forall|i: int, j: int|
                0 <= i < j < kinds.len() ==> !((#[trigger] kinds[i]) is Ctx && (
                #[trigger] kinds[j]) is Ctx)
        },
        kinds_of(params) is Err ==> (exists|i: int|
            0 <= i < params.len() && kind_of(#[trigger] params[i], false, i as usize) is Err)
            || exists|i: int, j: int|
            0 <= i < j < params.len() && stands_for_context(#[trigger] params[i], i)
                && stands_for_context(#[trigger] params[j], j),
    decreases params.len(),
{
    if params.len() > 0 {
        let front = params.drop_last();
        let last = params.len() - 1;
        law_parameters_one_by_one(front);
        assert(params[last] == params.last());
        assert forall|i: int| 0 <= i < front.len() implies #[trigger] params[i] == front[i] by {}
        match kinds_of(front) {
            Ok((kinds, kept)) => {
                let seen = kinds.contains(ParamKindV::Ctx);
                match kind_of(params.last(), seen, last as usize) {
                    Ok((kind, k)) => {
                        assert(kind_of(params.last(), false, last as usize) == Ok::<
                            (ParamKindV, Seq<usize>),
                            function::DiagnosticV,
                        >((kind, k)));
                        assert forall|i: int| 0 <= i < params.len() implies kind_of(
                            #[trigger] params[i],
                            false,
                            i as usize,
                        ) == Ok::<(ParamKindV, Seq<usize>), function::DiagnosticV>(
                            (kinds.push(kind)[i], kept.push(k)[i]),
                        ) by {
                            if i < front.len() {
                                assert(params[i] == front[i]);
                            }
                        }
                        assert forall|i: int, j: int|
                            0 <= i < j < kinds.push(kind).len() implies !((#[trigger] kinds.push(
                            kind,
                        )[i]) is Ctx && (#[trigger] kinds.push(kind)[j]) is Ctx) by {
                            if j == last && kind is Ctx {
                                assert(!seen);
                                assert(kinds.push(kind)[i] == kinds[i]);
                                assert(kinds[i] != ParamKindV::Ctx);
                            } else if j < last {
                                assert(kinds.push(kind)[i] == kinds[i]);
                                assert(kinds.push(kind)[j] == kinds[j]);
                            }
                        }
                    },
                    Err(d) => {
                        if kind_of(params.last(), false, last as usize) is Ok {
                            assert(seen);
                            let i = choose|i: int|
                                0 <= i < kinds.len() && #[trigger] kinds[i] == ParamKindV::Ctx;
                            assert(params[i] == front[i]);
                            assert(stands_for_context(params[i], i));
                            assert(stands_for_context(params[last], last));
                        } else {
                            assert(kind_of(params[last], false, last as usize) is Err);
                        }
                    },
                }
            },
            Err(d) => {
                if exists|i: int|
                    0 <= i < front.len() && kind_of(#[trigger] front[i], false, i as usize) is Err {
                    let i = choose|i: int|
                        0 <= i < front.len() && kind_of(#[trigger] front[i], false, i as usize)
                            is Err;
                    assert(kind_of(params[i], false, i as usize) is Err);
                } else {
                    let (i, j) = choose|i: int, j: int|
                        0 <= i < j < front.len() && stands_for_context(#[trigger] front[i], i)
                            && stands_for_context(#[trigger] front[j], j);
                    assert(stands_for_context(params[i], i) && stands_for_context(params[j], j));
                }
            },
        }
    }
}

/// Whether the parameter at position `i` stands for the context.
pub open spec fn stands_for_context(p: function::ParamV, i: int) -> bool {
    kind_of(p, false, i as usize) matches Ok((kind, kept)) && kind is Ctx
}

} // verus!
