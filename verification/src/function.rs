//! Function items as the attribute macros see them, and what the macros
//! report of them.

use crate::syntax;
use crate::types;
use vstd::prelude::*;

verus! {

/// What a diagnostic points at.
#[derive(Clone, Copy, Debug, PartialEq, Eq, Structural)]
pub enum Place {
    /// The attribute macro itself.
    CallSite,
    /// The point in the item under the attribute macro at which it cannot be
    /// read.
    UnreadItem,
    /// The function's `async`.
    Async,
    /// The function's signature.
    Signature,
    /// The function's name.
    Name,
    /// The function's parameter list.
    Params,
    /// One parameter without its markers, by its position.
    Param(usize),
    /// The pattern of one parameter, by the parameter's position.
    ParamPattern(usize),
    /// The type of one parameter, by the parameter's position.
    ParamType(usize),
    /// An attribute of a parameter, by the parameter's position and its own.
    ParamAttribute(usize, usize),
    /// The point in an attribute of a parameter at which its arguments cannot
    /// be read, by the parameter's position and the attribute's.
    UnreadParamAttribute(usize, usize),
    /// The function's return type.
    Output,
    /// The error type in the function's return type.
    ErrorType,
    /// The function's body.
    Body,
    /// An attribute below the attribute macro, by its position.
    Attribute(usize),
    /// The point in an attribute below the attribute macro at which its
    /// arguments cannot be read, by the attribute's position.
    UnreadAttribute(usize),
    /// All arguments of the attribute macro.
    Arguments,
    /// The point in the arguments of the attribute macro at which they cannot
    /// be read.
    UnreadArguments,
    /// An argument of the attribute macro, by its position.
    Argument(usize),
    /// The value of an argument of the attribute macro, by the argument's
    /// position.
    Value(usize),
    /// The point in the value of an argument at which it cannot be read as a
    /// pattern, by the argument's position.
    UnreadPattern(usize),
    /// An element of the value of an argument, by the argument's position and
    /// its own.
    Element(usize, usize),
}

/// A compile error: what it points at and what it says.
#[derive(Debug)]
pub struct Diagnostic {
    pub at: Place,
    pub message: String,
}

pub struct DiagnosticV {
    pub at: Place,
    pub message: Seq<char>,
}

impl DeepView for Diagnostic {
    type V = DiagnosticV;

    open spec fn deep_view(&self) -> DiagnosticV {
        DiagnosticV { at: self.at, message: self.message@ }
    }
}

/// The diagnostic that says `message` at `at`.
pub open spec fn diag(at: Place, message: Seq<char>) -> DiagnosticV {
    DiagnosticV { at, message }
}

/// The diagnostic that says `message` at `at`.
pub fn diagnostic(at: Place, message: &str) -> (d: Diagnostic)
    ensures
        d.deep_view() == diag(at, message@),
{
    Diagnostic { at, message: message.to_owned() }
}

/// An attribute.
#[derive(Debug)]
pub struct Attr {
    /// Its path, as text and as the names of its segments.
    pub path: Option<(String, Vec<String>)>,
    /// The expressions in its argument list, or why it has none.
    pub args: Result<Vec<String>, String>,
}

pub struct AttrV {
    pub path: Option<(Seq<char>, Seq<Seq<char>>)>,
    pub args: Result<Seq<Seq<char>>, Seq<char>>,
}

/// The texts in a list, or the text of an error.
pub open spec fn texts_or(r: Result<Vec<String>, String>) -> Result<Seq<Seq<char>>, Seq<char>> {
    match r {
        Ok(v) => Ok(v.deep_view()),
        Err(e) => Err(e@),
    }
}

impl DeepView for Attr {
    type V = AttrV;

    open spec fn deep_view(&self) -> AttrV {
        AttrV { path: self.path.deep_view(), args: texts_or(self.args) }
    }
}

/// The attribute of that text.
pub open spec fn attr_in(attr: Seq<char>) -> AttrV {
    AttrV { path: syntax::attr_path(attr), args: syntax::attr_args(attr) }
}

/// The attributes of those texts.
pub open spec fn attrs_in(attrs: Seq<Seq<char>>) -> Seq<AttrV> {
    attrs.map_values(|a: Seq<char>| attr_in(a))
}

fn read_attrs(attrs: &Vec<String>) -> (r: Vec<Attr>)
    ensures
        r.deep_view() == attrs_in(attrs.deep_view()),
{
    let mut out: Vec<Attr> = Vec::new();
    let mut i: usize = 0;
    while i < attrs.len()
        invariant
            i <= attrs@.len(),
            out@.len() == i,
            forall|k: int| 0 <= k < i ==> (#[trigger] out@[k]).deep_view() == attr_in(attrs@[k]@),
        decreases attrs@.len() - i,
    {
        out.push(
            Attr {
                path: syntax::read_attr_path(&attrs[i]),
                args: syntax::read_attr_args(&attrs[i]),
            },
        );
        i += 1;
    }
    assert(out.deep_view() =~= attrs_in(attrs.deep_view()));
    out
}

/// A parameter.
#[derive(Debug)]
pub enum Param {
    /// `self`, in any of its forms.
    Receiver,
    /// `pattern: type`
    Typed {
        attrs: Vec<Attr>,
        /// The parameter's name, where its pattern is a plain one.
        ident: Option<String>,
        ty: String,
        /// Whether the type is `Arc<TestContext>`.
        is_context: bool,
    },
}

pub enum ParamV {
    Receiver,
    Typed { attrs: Seq<AttrV>, ident: Option<Seq<char>>, ty: Seq<char>, is_context: bool },
}

impl DeepView for Param {
    type V = ParamV;

    open spec fn deep_view(&self) -> ParamV {
        match self {
            Param::Receiver => ParamV::Receiver,
            Param::Typed { attrs, ident, ty, is_context } => ParamV::Typed {
                attrs: attrs.deep_view(),
                ident: ident.deep_view(),
                ty: ty@,
                is_context: *is_context,
            },
        }
    }
}

/// The parameter of that text, or the error in it.
pub open spec fn param_of(input: Seq<char>) -> Result<ParamV, Seq<char>> {
    match syntax::param_in(input) {
        Err(e) => Err(e),
        Ok(None) => Ok(ParamV::Receiver),
        Ok(Some(p)) => Ok(
            ParamV::Typed {
                attrs: attrs_in(p.0),
                ident: p.1,
                ty: p.2,
                is_context: types::arc_test_context(p.2),
            },
        ),
    }
}

/// The parameters of those texts, or the error in the first that has one.
pub open spec fn params_of(inputs: Seq<Seq<char>>) -> Result<Seq<ParamV>, Seq<char>>
    decreases inputs.len(),
{
    if inputs.len() == 0 {
        Ok(seq![])
    } else {
        match params_of(inputs.drop_last()) {
            Err(e) => Err(e),
            Ok(before) => match param_of(inputs.last()) {
                Err(e) => Err(e),
                Ok(p) => Ok(before.push(p)),
            },
        }
    }
}

fn read_param(input: &str) -> (r: Result<Param, String>)
    ensures
        match r {
            Ok(p) => param_of(input@) == Ok::<ParamV, Seq<char>>(p.deep_view()),
            Err(e) => param_of(input@) == Err::<ParamV, Seq<char>>(e@),
        },
{
    match syntax::read_param(input) {
        Err(e) => Err(e),
        Ok(None) => Ok(Param::Receiver),
        Ok(Some((attrs, ident, ty))) => {
            let is_context = types::type_is_arc_test_context(&ty);
            Ok(Param::Typed { attrs: read_attrs(&attrs), ident, ty, is_context })
        },
    }
}

proof fn lemma_params_of_error(inputs: Seq<Seq<char>>, n: int)
    requires
        0 <= n <= inputs.len(),
        params_of(inputs.take(n)) is Err,
    ensures
        params_of(inputs) == params_of(inputs.take(n)),
    decreases inputs.len(),
{
    if n == inputs.len() {
        assert(inputs.take(n) =~= inputs);
    } else {
        assert(inputs.drop_last().take(n) =~= inputs.take(n));
        lemma_params_of_error(inputs.drop_last(), n);
    }
}

fn read_params(inputs: &Vec<String>) -> (r: Result<Vec<Param>, String>)
    ensures
        match r {
            Ok(ps) => params_of(inputs.deep_view()) == Ok::<Seq<ParamV>, Seq<char>>(
                ps.deep_view(),
            ),
            Err(e) => params_of(inputs.deep_view()) == Err::<Seq<ParamV>, Seq<char>>(e@),
        },
{
    let mut out: Vec<Param> = Vec::new();
    let mut i: usize = 0;
    let ghost all = inputs.deep_view();
    assert(out.deep_view() =~= seq![]);
    while i < inputs.len()
        invariant
            i <= inputs@.len(),
            all == inputs.deep_view(),
            params_of(all.take(i as int)) == Ok::<Seq<ParamV>, Seq<char>>(out.deep_view()),
        decreases inputs@.len() - i,
    {
        proof {
            assert(all.take(i + 1).drop_last() =~= all.take(i as int));
            assert(all.take(i + 1).last() == inputs@[i as int]@);
        }
        let ghost was = out.deep_view();
        match read_param(&inputs[i]) {
            Err(e) => {
                proof {
                    lemma_params_of_error(all, i + 1);
                }
                return Err(e);
            },
            Ok(p) => {
                out.push(p);
                assert(out.deep_view() =~= was.push(p.deep_view()));
            },
        }
        i += 1;
    }
    assert(all.take(i as int) =~= all);
    Ok(out)
}

/// A function item.
#[derive(Debug)]
pub struct Function {
    pub attrs: Vec<Attr>,
    pub vis: String,
    pub name: String,
    pub is_async: bool,
    /// Its parameters.
    pub params: Vec<Param>,
    /// The text of each parameter.
    pub inputs: Vec<String>,
    /// Its return type, where it has one.
    pub output: Option<String>,
    pub block: String,
    /// The number of statements in its body.
    pub statements: usize,
}

pub struct FunctionV {
    pub attrs: Seq<AttrV>,
    pub vis: Seq<char>,
    pub name: Seq<char>,
    pub is_async: bool,
    pub params: Seq<ParamV>,
    pub inputs: Seq<Seq<char>>,
    pub output: Option<Seq<char>>,
    pub block: Seq<char>,
    pub statements: usize,
}

impl DeepView for Function {
    type V = FunctionV;

    open spec fn deep_view(&self) -> FunctionV {
        FunctionV {
            attrs: self.attrs.deep_view(),
            vis: self.vis@,
            name: self.name@,
            is_async: self.is_async,
            params: self.params.deep_view(),
            inputs: self.inputs.deep_view(),
            output: self.output.deep_view(),
            block: self.block@,
            statements: self.statements,
        }
    }
}

/// The function item of that text, or the first error in it.
pub open spec fn function_in(item: Seq<char>) -> Result<FunctionV, Seq<char>> {
    match syntax::fn_in(item) {
        Err(e) => Err(e),
        Ok(f) => match params_of(f.inputs) {
            Err(e) => Err(e),
            Ok(params) => Ok(
                FunctionV {
                    attrs: attrs_in(f.attrs),
                    vis: f.vis,
                    name: f.name,
                    is_async: f.is_async,
                    params,
                    inputs: f.inputs,
                    output: syntax::type_returned(f.output),
                    block: f.block,
                    statements: f.statements,
                },
            ),
        },
    }
}

/// Reads the function item of that text.
pub fn read_function(item: &str) -> (r: Result<Function, Diagnostic>)
    ensures
        match r {
            Ok(f) => function_in(item@) == Ok::<FunctionV, Seq<char>>(f.deep_view()),
            Err(d) => function_in(item@) is Err && d.deep_view() == diag(
                Place::UnreadItem,
                function_in(item@)->Err_0,
            ),
        },
{
    let f = match syntax::read_fn(item) {
        Ok(f) => f,
        Err(e) => return Err(Diagnostic { at: Place::UnreadItem, message: e }),
    };
    let params = match read_params(&f.inputs) {
        Ok(ps) => ps,
        Err(e) => return Err(Diagnostic { at: Place::UnreadItem, message: e }),
    };
    Ok(
        Function {
            attrs: read_attrs(&f.attrs),
            vis: f.vis,
            name: f.name,
            is_async: f.is_async,
            params,
            inputs: f.inputs,
            output: syntax::read_return_type(&f.output),
            block: f.block,
            statements: f.statements,
        },
    )
}

proof fn lemma_params_of_len(inputs: Seq<Seq<char>>)
    requires
        params_of(inputs) is Ok,
    ensures
        params_of(inputs)->Ok_0.len() == inputs.len(),
    decreases inputs.len(),
{
    if inputs.len() > 0 {
        lemma_params_of_len(inputs.drop_last());
    }
}

/// A function has one text for each of its parameters.
pub proof fn lemma_params_and_inputs(item: Seq<char>)
    requires
        function_in(item) is Ok,
    ensures
        function_in(item)->Ok_0.params.len() == function_in(item)->Ok_0.inputs.len(),
{
    match syntax::fn_in(item) {
        Ok(f) => lemma_params_of_len(f.inputs),
        Err(e) => {},
    }
}

// ── laws ────────────────────────────────────────────────────────────────────

/// The parameters are read one by one and in order, each from its own text.
/// Where one cannot be read, the error is that of the first such.
pub proof fn law_parameters_one_by_one(inputs: Seq<Seq<char>>)
    ensures
        params_of(inputs) is Ok <==> forall|i: int|
            0 <= i < inputs.len() ==> param_of(#[trigger] inputs[i]) is Ok,
        params_of(inputs) is Ok ==> params_of(inputs)->Ok_0.len() == inputs.len(),
        params_of(inputs) is Ok ==> forall|i: int|
            0 <= i < inputs.len() ==> param_of(#[trigger] inputs[i]) == Ok::<ParamV, Seq<char>>(
                params_of(inputs)->Ok_0[i],
            ),
        params_of(inputs) is Err ==> exists|i: int|
            0 <= i < inputs.len() && param_of(#[trigger] inputs[i]) == Err::<ParamV, Seq<char>>(
                params_of(inputs)->Err_0,
            ) && forall|k: int| 0 <= k < i ==> param_of(#[trigger] inputs[k]) is Ok,
    decreases inputs.len(),
{
    if inputs.len() > 0 {
        let front = inputs.drop_last();
        law_parameters_one_by_one(front);
        assert forall|i: int| 0 <= i < front.len() implies #[trigger] front[i] == inputs[i] by {}
        let last = inputs.len() - 1;
        assert(inputs[last] == inputs.last());
        if params_of(front) is Ok {
            assert forall|i: int| 0 <= i < front.len() implies param_of(
                #[trigger] inputs[i],
            ) == Ok::<ParamV, Seq<char>>(params_of(front)->Ok_0[i]) by {
                assert(front[i] == inputs[i]);
            }
        } else {
            let i = choose|i: int|
                0 <= i < front.len() && param_of(#[trigger] front[i]) == Err::<
                    ParamV,
                    Seq<char>,
                >(params_of(front)->Err_0) && forall|k: int|
                    0 <= k < i ==> param_of(#[trigger] front[k]) is Ok;
            assert(param_of(inputs[i]) is Err);
            assert forall|k: int| 0 <= k < i implies param_of(#[trigger] inputs[k]) is Ok by {
                assert(front[k] == inputs[k]);
            }
        }
    }
}

/// A parameter with a type keeps its name, its type and its attributes, and is
/// the context exactly where its type is that of the context.
pub proof fn law_what_a_parameter_is(
    input: Seq<char>,
    attrs: Seq<Seq<char>>,
    ident: Option<Seq<char>>,
    ty: Seq<char>,
)
    requires
        syntax::param_in(input) == Ok::<
            Option<(Seq<Seq<char>>, Option<Seq<char>>, Seq<char>)>,
            Seq<char>,
        >(Some((attrs, ident, ty))),
    ensures
        param_of(input) is Ok,
        param_of(input)->Ok_0 is Typed,
        param_of(input)->Ok_0->ident == ident,
        param_of(input)->Ok_0->ty == ty,
        param_of(input)->Ok_0->is_context <==> types::arc_test_context(ty),
        param_of(input)->Ok_0->attrs.len() == attrs.len(),
        forall|i: int|
            0 <= i < attrs.len() ==> (#[trigger] param_of(input)->Ok_0->attrs[i]).path
                == syntax::attr_path(attrs[i]) && param_of(input)->Ok_0->attrs[i].args
                == syntax::attr_args(attrs[i]),
{
}

/// A function is read exactly where its item and every parameter of it can be
/// read, and nothing that the item says is lost.
pub proof fn law_what_a_function_is(item: Seq<char>)
    ensures
        function_in(item) is Ok <==> syntax::fn_in(item) is Ok && forall|i: int|
            0 <= i < syntax::fn_in(item)->Ok_0.inputs.len() ==> param_of(
                #[trigger] syntax::fn_in(item)->Ok_0.inputs[i],
            ) is Ok,
        function_in(item) matches Ok(f) ==> {
            let said = syntax::fn_in(item)->Ok_0;
            &&& f.vis == said.vis
            &&& f.name == said.name
            &&& f.is_async == said.is_async
            &&& f.inputs == said.inputs
            &&& f.block == said.block
            &&& f.statements == said.statements
            &&& f.output == syntax::type_returned(said.output)
            &&& f.params.len() == said.inputs.len()
            &&& f.attrs.len() == said.attrs.len()
            &&& forall|i: int|
                0 <= i < said.attrs.len() ==> (#[trigger] f.attrs[i]).path == syntax::attr_path(
                    said.attrs[i],
                ) && f.attrs[i].args == syntax::attr_args(said.attrs[i])
        },
{
    if let Ok(f) = syntax::fn_in(item) {
        law_parameters_one_by_one(f.inputs);
    }
}

} // verus!
