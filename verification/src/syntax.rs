//! What the attribute macros read of Rust source: functions, their
//! parameters, types and attributes, as plain values.
//!
//! The grammar is `syn`'s. Each call into it takes source text and hands back
//! plain text and flags, so that the rules of the macros are stated and proved
//! on plain values. Every such call first makes `proc_macro2` use its own
//! token streams, so that the text it prints does not depend on whether a
//! compiler is running.

use proc_macro2::{LexError, Spacing, TokenStream, TokenTree};
use quote::ToTokens;
use syn::parse::Parser;
use syn::punctuated::Punctuated;
use vstd::prelude::*;

verus! {

/// An item of an attribute's argument list.
pub enum Meta {
    /// `name`
    Flag { name: String },
    /// `name = value`
    Assign { name: String, value: String },
    /// `name(..)`
    List { name: String },
}

pub enum MetaV {
    Flag { name: Seq<char> },
    Assign { name: Seq<char>, value: Seq<char> },
    List { name: Seq<char> },
}

impl DeepView for Meta {
    type V = MetaV;

    open spec fn deep_view(&self) -> MetaV {
        match self {
            Meta::Flag { name } => MetaV::Flag { name: name@ },
            Meta::Assign { name, value } => MetaV::Assign { name: name@, value: value@ },
            Meta::List { name } => MetaV::List { name: name@ },
        }
    }
}

/// The items that `syn` reads in an attribute's argument list, or its error.
pub uninterp spec fn metas_in(attr: Seq<char>) -> Result<Seq<MetaV>, Seq<char>>;

/// Reads a comma-separated list of `syn::Meta`. The result is a function of
/// the text; which texts are lists is `syn`'s grammar and not stated.
#[verifier::external_body]
pub(crate) fn read_metas(attr: &str) -> (r: Result<Vec<Meta>, String>)
    ensures
        match r {
            Ok(metas) => metas_in(attr@) == Ok::<Seq<MetaV>, Seq<char>>(metas.deep_view()),
            Err(e) => metas_in(attr@) == Err::<Seq<MetaV>, Seq<char>>(e@),
        },
{
    proc_macro2::fallback::force();
    let list = Punctuated::<syn::Meta, syn::token::Comma>::parse_terminated
        .parse_str(attr)
        .map_err(|e| e.to_string())?;
    let read = list.into_iter().map(|m| match m {
        syn::Meta::Path(p) => Meta::Flag { name: p.to_token_stream().to_string() },
        syn::Meta::NameValue(nv) => Meta::Assign {
            name: nv.path.to_token_stream().to_string(),
            value: nv.value.to_token_stream().to_string(),
        },
        syn::Meta::List(l) => Meta::List { name: l.path.to_token_stream().to_string() },
    });
    Ok(read.collect())
}

/// The text of a function item, in parts.
pub struct FnText {
    /// Its attributes, each without `#[` and `]`.
    pub attrs: Vec<String>,
    /// Its visibility.
    pub vis: String,
    /// Its name.
    pub name: String,
    /// Whether it is `async`.
    pub is_async: bool,
    /// Its parameters.
    pub inputs: Vec<String>,
    /// Its return arrow and type, or nothing.
    pub output: String,
    /// Its body.
    pub block: String,
    /// The number of statements in its body.
    pub statements: usize,
}

pub struct FnTextV {
    pub attrs: Seq<Seq<char>>,
    pub vis: Seq<char>,
    pub name: Seq<char>,
    pub is_async: bool,
    pub inputs: Seq<Seq<char>>,
    pub output: Seq<char>,
    pub block: Seq<char>,
    pub statements: usize,
}

impl DeepView for FnText {
    type V = FnTextV;

    open spec fn deep_view(&self) -> FnTextV {
        FnTextV {
            attrs: self.attrs.deep_view(),
            vis: self.vis@,
            name: self.name@,
            is_async: self.is_async,
            inputs: self.inputs.deep_view(),
            output: self.output@,
            block: self.block@,
            statements: self.statements,
        }
    }
}

/// The function item that `syn` reads in `item`, or its error.
pub uninterp spec fn fn_in(item: Seq<char>) -> Result<FnTextV, Seq<char>>;

/// Reads a `syn::ItemFn` and prints its parts. The result is a function of the
/// text; which texts are functions is `syn`'s grammar and not stated.
#[verifier::external_body]
pub(crate) fn read_fn(item: &str) -> (r: Result<FnText, String>)
    ensures
        match r {
            Ok(f) => fn_in(item@) == Ok::<FnTextV, Seq<char>>(f.deep_view()),
            Err(e) => fn_in(item@) == Err::<FnTextV, Seq<char>>(e@),
        },
{
    proc_macro2::fallback::force();
    let f = syn::parse_str::<syn::ItemFn>(item).map_err(|e| e.to_string())?;
    Ok(FnText {
        attrs: f.attrs.iter().map(|a| a.meta.to_token_stream().to_string()).collect(),
        vis: f.vis.to_token_stream().to_string(),
        name: f.sig.ident.to_string(),
        is_async: f.sig.asyncness.is_some(),
        inputs: f.sig.inputs.iter().map(|a| a.to_token_stream().to_string()).collect(),
        output: f.sig.output.to_token_stream().to_string(),
        block: f.block.to_token_stream().to_string(),
        statements: f.block.stmts.len(),
    })
}

/// The type that `syn` reads behind the return arrow in `output`, if any.
pub uninterp spec fn type_returned(output: Seq<char>) -> Option<Seq<char>>;

/// Reads a `syn::ReturnType` and prints its type. The result is a function of
/// the text.
#[verifier::external_body]
pub(crate) fn read_return_type(output: &str) -> (r: Option<String>)
    ensures
        r.deep_view() == type_returned(output@),
{
    proc_macro2::fallback::force();
    match syn::parse_str::<syn::ReturnType>(output) {
        Ok(syn::ReturnType::Type(_, ty)) => Some(ty.to_token_stream().to_string()),
        _ => None,
    }
}

/// The path of the attribute `attr`, as text and as the names of its
/// segments, as `syn` reads it.
pub uninterp spec fn attr_path(attr: Seq<char>) -> Option<(Seq<char>, Seq<Seq<char>>)>;

/// Reads a `syn::Meta` and prints its path. The result is a function of the
/// text.
#[verifier::external_body]
pub(crate) fn read_attr_path(attr: &str) -> (r: Option<(String, Vec<String>)>)
    ensures
        r.deep_view() == attr_path(attr@),
{
    proc_macro2::fallback::force();
    let meta = syn::parse_str::<syn::Meta>(attr).ok()?;
    let segments = meta.path().segments.iter().map(|s| s.ident.to_string());
    Some((meta.path().to_token_stream().to_string(), segments.collect()))
}

/// The expressions in the argument list of the attribute `attr`, as `syn`
/// reads them, or its error.
pub uninterp spec fn attr_args(attr: Seq<char>) -> Result<Seq<Seq<char>>, Seq<char>>;

/// Reads an attribute's arguments with `syn::Attribute::parse_args_with`, as
/// expressions between commas. The result is a function of the text.
#[verifier::external_body]
pub(crate) fn read_attr_args(attr: &str) -> (r: Result<Vec<String>, String>)
    ensures
        match r {
            Ok(args) => attr_args(attr@) == Ok::<Seq<Seq<char>>, Seq<char>>(args.deep_view()),
            Err(e) => attr_args(attr@) == Err::<Seq<Seq<char>>, Seq<char>>(e@),
        },
{
    proc_macro2::fallback::force();
    let outer = syn::Attribute::parse_outer
        .parse_str(&format!("#[{attr}]"))
        .map_err(|e| e.to_string())?;
    let args = outer[0]
        .parse_args_with(Punctuated::<syn::Expr, syn::token::Comma>::parse_terminated)
        .map_err(|e| e.to_string())?;
    Ok(args.iter().map(|e| e.to_token_stream().to_string()).collect())
}

/// The parameter that `syn` reads in `input`, or its error: nothing for
/// `self`, else its attributes, its name where it is a plain one, and its type.
pub uninterp spec fn param_in(input: Seq<char>) -> Result<
    Option<(Seq<Seq<char>>, Option<Seq<char>>, Seq<char>)>,
    Seq<char>,
>;

/// Reads a `syn::FnArg` and prints its parts. The result is a function of the
/// text.
#[verifier::external_body]
pub(crate) fn read_param(input: &str) -> (r: Result<
    Option<(Vec<String>, Option<String>, String)>,
    String,
>)
    ensures
        match r {
            Ok(p) => param_in(input@) == Ok::<
                Option<(Seq<Seq<char>>, Option<Seq<char>>, Seq<char>)>,
                Seq<char>,
            >(p.deep_view()),
            Err(e) => param_in(input@) == Err::<
                Option<(Seq<Seq<char>>, Option<Seq<char>>, Seq<char>)>,
                Seq<char>,
            >(e@),
        },
{
    proc_macro2::fallback::force();
    Ok(match syn::parse_str::<syn::FnArg>(input).map_err(|e| e.to_string())? {
        syn::FnArg::Receiver(_) => None,
        syn::FnArg::Typed(p) => Some((
            p.attrs.iter().map(|a| a.meta.to_token_stream().to_string()).collect(),
            match *p.pat {
                syn::Pat::Ident(i) => Some(i.ident.to_string()),
                _ => None,
            },
            p.ty.to_token_stream().to_string(),
        )),
    })
}

/// The text of a type, by its outermost form.
pub enum TypeText {
    /// A path, with or without a qualified self type.
    Path { qself: bool, path: String },
    /// A reference.
    Reference { mutable: bool, elem: String },
    /// A trait object, by its bounds.
    TraitObject { bounds: Vec<String> },
    /// Any other type.
    Other,
}

pub enum TypeTextV {
    Path { qself: bool, path: Seq<char> },
    Reference { mutable: bool, elem: Seq<char> },
    TraitObject { bounds: Seq<Seq<char>> },
    Other,
}

impl DeepView for TypeText {
    type V = TypeTextV;

    open spec fn deep_view(&self) -> TypeTextV {
        match self {
            TypeText::Path { qself, path } => TypeTextV::Path { qself: *qself, path: path@ },
            TypeText::Reference { mutable, elem } => TypeTextV::Reference {
                mutable: *mutable,
                elem: elem@,
            },
            TypeText::TraitObject { bounds } => TypeTextV::TraitObject {
                bounds: bounds.deep_view(),
            },
            TypeText::Other => TypeTextV::Other,
        }
    }
}

/// The type that `syn` reads in `ty`, by its outermost form.
pub uninterp spec fn type_in(ty: Seq<char>) -> TypeTextV;

/// Reads a `syn::Type` and prints its parts. The result is a function of the
/// text.
#[verifier::external_body]
pub(crate) fn read_type(ty: &str) -> (r: TypeText)
    ensures
        r.deep_view() == type_in(ty@),
{
    proc_macro2::fallback::force();
    match syn::parse_str::<syn::Type>(ty) {
        Ok(syn::Type::Path(p)) => {
            TypeText::Path { qself: p.qself.is_some(), path: p.path.to_token_stream().to_string() }
        },
        Ok(syn::Type::Reference(r)) => TypeText::Reference {
            mutable: r.mutability.is_some(),
            elem: r.elem.to_token_stream().to_string(),
        },
        Ok(syn::Type::TraitObject(t)) => TypeText::TraitObject {
            bounds: t.bounds.iter().map(|b| b.to_token_stream().to_string()).collect(),
        },
        _ => TypeText::Other,
    }
}

/// The names of the segments of the path `path`, as `syn` reads it, and the
/// arguments in angle brackets behind the last one, where it has such.
pub uninterp spec fn path_in(path: Seq<char>) -> Option<
    (Seq<Seq<char>>, Option<Seq<Seq<char>>>),
>;

/// Reads a `syn::Path` and prints its parts. The result is a function of the
/// text.
#[verifier::external_body]
pub(crate) fn read_path(path: &str) -> (r: Option<(Vec<String>, Option<Vec<String>>)>)
    ensures
        r.deep_view() == path_in(path@),
{
    proc_macro2::fallback::force();
    let p = syn::parse_str::<syn::Path>(path).ok()?;
    let args = match &p.segments.last()?.arguments {
        syn::PathArguments::AngleBracketed(a) => {
            Some(a.args.iter().map(|x| x.to_token_stream().to_string()).collect())
        },
        _ => None,
    };
    Some((p.segments.iter().map(|s| s.ident.to_string()).collect(), args))
}

/// The type that the generic argument `arg` is, where `syn` reads a type in
/// it.
pub uninterp spec fn arg_type(arg: Seq<char>) -> Option<Seq<char>>;

/// Reads a `syn::GenericArgument` and prints its type. The result is a
/// function of the text.
#[verifier::external_body]
pub(crate) fn read_arg_type(arg: &str) -> (r: Option<String>)
    ensures
        r.deep_view() == arg_type(arg@),
{
    proc_macro2::fallback::force();
    match syn::parse_str::<syn::GenericArgument>(arg) {
        Ok(syn::GenericArgument::Type(ty)) => Some(ty.to_token_stream().to_string()),
        _ => None,
    }
}

/// The path of the trait that the bound `bound` names, where `syn` reads a
/// trait in it.
pub uninterp spec fn bound_trait(bound: Seq<char>) -> Option<Seq<char>>;

/// Reads a `syn::TypeParamBound` and prints its trait's path. The result is a
/// function of the text.
#[verifier::external_body]
pub(crate) fn read_bound(bound: &str) -> (r: Option<String>)
    ensures
        r.deep_view() == bound_trait(bound@),
{
    proc_macro2::fallback::force();
    match syn::parse_str::<syn::TypeParamBound>(bound) {
        Ok(syn::TypeParamBound::Trait(t)) => Some(t.path.to_token_stream().to_string()),
        _ => None,
    }
}

/// The text of an expression, by its outermost form.
pub enum ExprText {
    /// A string literal, by its value.
    Str(String),
    /// An array, by its elements.
    Array(Vec<String>),
    /// Any other expression.
    Other,
}

pub enum ExprTextV {
    Str(Seq<char>),
    Array(Seq<Seq<char>>),
    Other,
}

impl DeepView for ExprText {
    type V = ExprTextV;

    open spec fn deep_view(&self) -> ExprTextV {
        match self {
            ExprText::Str(value) => ExprTextV::Str(value@),
            ExprText::Array(elems) => ExprTextV::Array(elems.deep_view()),
            ExprText::Other => ExprTextV::Other,
        }
    }
}

/// The expression that `syn` reads in `expr`, by its outermost form.
pub uninterp spec fn expr_in(expr: Seq<char>) -> ExprTextV;

/// Reads a `syn::Expr` and prints its parts. The result is a function of the
/// text.
#[verifier::external_body]
pub(crate) fn read_expr(expr: &str) -> (r: ExprText)
    ensures
        r.deep_view() == expr_in(expr@),
{
    proc_macro2::fallback::force();
    match syn::parse_str::<syn::Expr>(expr) {
        Ok(syn::Expr::Lit(syn::ExprLit { lit: syn::Lit::Str(s), .. })) => ExprText::Str(s.value()),
        Ok(syn::Expr::Array(a)) => {
            ExprText::Array(a.elems.iter().map(|e| e.to_token_stream().to_string()).collect())
        },
        _ => ExprText::Other,
    }
}

/// A token, or a group of tokens in brackets.
#[derive(Debug)]
pub enum TokenText {
    /// A name or a keyword.
    Word(String),
    /// A punctuation mark; `joint` says whether another mark follows at once.
    Mark { mark: char, joint: bool },
    /// A literal, or a group with its brackets.
    Other(String),
}

pub enum TokenTextV {
    Word(Seq<char>),
    Mark { mark: char, joint: bool },
    Other(Seq<char>),
}

impl DeepView for TokenText {
    type V = TokenTextV;

    open spec fn deep_view(&self) -> TokenTextV {
        match self {
            TokenText::Word(word) => TokenTextV::Word(word@),
            TokenText::Mark { mark, joint } => TokenTextV::Mark { mark: *mark, joint: *joint },
            TokenText::Other(text) => TokenTextV::Other(text@),
        }
    }
}

/// The tokens that `proc_macro2` reads in a text, or its error.
pub uninterp spec fn tokens_in(text: Seq<char>) -> Result<Seq<TokenTextV>, Seq<char>>;

/// Reads a `proc_macro2::TokenStream` and prints each of its token trees. The
/// result is a function of the text; which texts are tokens is Rust's grammar
/// and not stated.
#[verifier::external_body]
pub(crate) fn read_tokens(text: &str) -> (r: Result<Vec<TokenText>, String>)
    ensures
        match r {
            Ok(tokens) => tokens_in(text@) == Ok::<Seq<TokenTextV>, Seq<char>>(tokens.deep_view()),
            Err(e) => tokens_in(text@) == Err::<Seq<TokenTextV>, Seq<char>>(e@),
        },
{
    proc_macro2::fallback::force();
    let stream: Result<TokenStream, LexError> = text.parse();
    let trees = stream.map_err(|e| e.to_string())?.into_iter().map(|tree| match tree {
        TokenTree::Ident(i) => TokenText::Word(i.to_string()),
        TokenTree::Punct(p) => TokenText::Mark {
            mark: p.as_char(),
            joint: matches!(p.spacing(), Spacing::Joint),
        },
        TokenTree::Literal(l) => TokenText::Other(l.to_string()),
        TokenTree::Group(g) => TokenText::Other(g.to_string()),
    });
    Ok(trees.collect())
}

/// The head of a match arm.
pub struct ArmText {
    /// Its attributes.
    pub attrs: Vec<String>,
    /// Its pattern.
    pub pat: String,
    /// The condition behind `if`.
    pub guard: Option<String>,
}

pub struct ArmTextV {
    pub attrs: Seq<Seq<char>>,
    pub pat: Seq<char>,
    pub guard: Option<Seq<char>>,
}

impl DeepView for ArmText {
    type V = ArmTextV;

    open spec fn deep_view(&self) -> ArmTextV {
        ArmTextV {
            attrs: self.attrs.deep_view(),
            pat: self.pat@,
            guard: self.guard.deep_view(),
        }
    }
}

/// The head of the match arm that `syn` reads in `arm`, or its error.
pub uninterp spec fn arm_in(arm: Seq<char>) -> Result<ArmTextV, Seq<char>>;

/// Reads a `syn::Arm` and prints the parts of its head. The result is a
/// function of the text; which texts are arms is `syn`'s grammar and not
/// stated.
#[verifier::external_body]
pub(crate) fn read_arm(arm: &str) -> (r: Result<ArmText, String>)
    ensures
        match r {
            Ok(head) => arm_in(arm@) == Ok::<ArmTextV, Seq<char>>(head.deep_view()),
            Err(e) => arm_in(arm@) == Err::<ArmTextV, Seq<char>>(e@),
        },
{
    proc_macro2::fallback::force();
    let arm = syn::parse_str::<syn::Arm>(arm).map_err(|e| e.to_string())?;
    Ok(ArmText {
        attrs: arm.attrs.iter().map(|a| a.to_token_stream().to_string()).collect(),
        pat: arm.pat.to_token_stream().to_string(),
        guard: arm.guard.map(|g| g.1.to_token_stream().to_string()),
    })
}

/// The pattern that `syn` reads in `pat`, or its error.
pub uninterp spec fn pattern_in(pat: Seq<char>) -> Result<Seq<char>, Seq<char>>;

/// Reads a pattern with `syn::Pat::parse_multi_with_leading_vert` and prints
/// it. The result is a function of the text.
#[verifier::external_body]
pub(crate) fn read_pattern(pat: &str) -> (r: Result<String, String>)
    ensures
        match r {
            Ok(p) => pattern_in(pat@) == Ok::<Seq<char>, Seq<char>>(p@),
            Err(e) => pattern_in(pat@) == Err::<Seq<char>, Seq<char>>(e@),
        },
{
    proc_macro2::fallback::force();
    syn::Pat::parse_multi_with_leading_vert
        .parse_str(pat)
        .map(|p| p.to_token_stream().to_string())
        .map_err(|e| e.to_string())
}

/// The string literal whose value is `value`, as `proc_macro2` prints it.
pub uninterp spec fn string_literal(value: Seq<char>) -> Seq<char>;

/// Prints the literal that `proc_macro2::Literal::string` makes. The result is
/// a function of the value.
#[verifier::external_body]
pub(crate) fn literal(value: &str) -> (r: String)
    ensures
        r@ == string_literal(value@),
{
    proc_macro2::fallback::force();
    proc_macro2::Literal::string(value).to_string()
}

/// `s` in upper case.
pub uninterp spec fn uppercased(s: Seq<char>) -> Seq<char>;

/// `str::to_uppercase`. The result is a function of the text; the case
/// mapping itself is Unicode's and not stated.
#[verifier::external_body]
pub(crate) fn uppercase(s: &str) -> (r: String)
    ensures
        r@ == uppercased(s@),
{
    s.to_uppercase()
}

} // verus!
