//! The types that the attribute macros recognise by their spelling.

use crate::syntax;
use crate::syntax::TypeText;
use crate::text;
use vstd::prelude::*;

verus! {

/// The last name in a list of names.
pub open spec fn last_name(segments: Seq<Seq<char>>) -> Option<Seq<char>> {
    if segments.len() > 0 {
        Some(segments.last())
    } else {
        None
    }
}

/// The last name in a list of names.
pub fn last_of(segments: &Vec<String>) -> (r: Option<String>)
    ensures
        r.deep_view() == last_name(segments.deep_view()),
{
    if segments.len() > 0 {
        Some(segments[segments.len() - 1].clone())
    } else {
        None
    }
}

/// The name of the last segment of a path, and the path's arguments in angle
/// brackets.
pub open spec fn path_end(path: Seq<char>) -> (Option<Seq<char>>, Option<Seq<Seq<char>>>) {
    match syntax::path_in(path) {
        Some(p) => (last_name(p.0), p.1),
        None => (None, None),
    }
}

fn read_path_end(path: &str) -> (r: (Option<String>, Option<Vec<String>>))
    ensures
        r.deep_view() == path_end(path@),
{
    match syntax::read_path(path) {
        Some(p) => (last_of(&p.0), p.1),
        None => (None, None),
    }
}

/// What a type that is a path ends in: the name of the path's last segment,
/// and its arguments in angle brackets.
pub open spec fn type_end(ty: Seq<char>) -> (Option<Seq<char>>, Option<Seq<Seq<char>>>) {
    match syntax::type_in(ty) {
        syntax::TypeTextV::Path { qself, path } => path_end(path),
        _ => (None, None),
    }
}

fn read_type_end(ty: &str) -> (r: (Option<String>, Option<Vec<String>>))
    ensures
        r.deep_view() == type_end(ty@),
{
    match syntax::read_type(ty) {
        TypeText::Path { qself, path } => read_path_end(&path),
        _ => (None, None),
    }
}

/// Whether `name` is the name `want`.
pub fn is_name(name: &Option<String>, want: &str) -> (r: bool)
    ensures
        r == (name.deep_view() == Some(want@)),
{
    match name {
        Some(n) => text::same(n, want),
        None => false,
    }
}

/// Whether some of the names is `want`.
pub fn any_is_name(names: &Vec<Option<String>>, want: &str) -> (r: bool)
    ensures
        r == names.deep_view().contains(Some(want@)),
{
    let mut i: usize = 0;
    while i < names.len()
        invariant
            i <= names@.len(),
            forall|k: int| 0 <= k < i ==> names.deep_view()[k] != Some(want@),
        decreases names@.len() - i,
    {
        if is_name(&names[i], want) {
            assert(names.deep_view()[i as int] == Some(want@));
            return true;
        }
        i += 1;
    }
    false
}

/// The types among generic arguments: each argument's type, or nothing where
/// it is none.
pub open spec fn arg_types(args: Seq<Seq<char>>) -> Seq<Option<Seq<char>>> {
    args.map_values(|a: Seq<char>| syntax::arg_type(a))
}

fn read_arg_types(args: &Vec<String>) -> (r: Vec<Option<String>>)
    ensures
        r.deep_view() == arg_types(args.deep_view()),
{
    let mut types: Vec<Option<String>> = Vec::new();
    let mut i: usize = 0;
    while i < args.len()
        invariant
            i <= args@.len(),
            types@.len() == i,
            forall|k: int|
                0 <= k < i ==> (#[trigger] types@[k]).deep_view() == syntax::arg_type(args@[k]@),
        decreases args@.len() - i,
    {
        types.push(syntax::read_arg_type(&args[i]));
        i += 1;
    }
    assert(types.deep_view() =~= arg_types(args.deep_view()));
    types
}

/// The types that are there, in order.
pub open spec fn present(types: Seq<Option<Seq<char>>>) -> Seq<Seq<char>> {
    types.filter(|t: Option<Seq<char>>| t is Some).map_values(|t: Option<Seq<char>>| t->0)
}

proof fn lemma_present_push(types: Seq<Option<Seq<char>>>, t: Option<Seq<char>>)
    ensures
        present(types.push(t)) == match t {
            Some(x) => present(types).push(x),
            None => present(types),
        },
{
    reveal(Seq::filter);
    assert(types.push(t).drop_last() =~= types);
    assert(present(types.push(t)) =~= match t {
        Some(x) => present(types).push(x),
        None => present(types),
    });
}

fn present_types(types: &Vec<Option<String>>) -> (r: Vec<String>)
    ensures
        r.deep_view() == present(types.deep_view()),
{
    let mut seen: Vec<String> = Vec::new();
    let mut i: usize = 0;
    let ghost all = types.deep_view();
    assert(present(all.take(0)) =~= seq![]) by {
        reveal(Seq::filter);
    }
    while i < types.len()
        invariant
            i <= types@.len(),
            all == types.deep_view(),
            seen.deep_view() == present(all.take(i as int)),
        decreases types@.len() - i,
    {
        proof {
            assert(all.take(i + 1) =~= all.take(i as int).push(all[i as int]));
            lemma_present_push(all.take(i as int), all[i as int]);
        }
        let ghost was = seen.deep_view();
        match &types[i] {
            Some(t) => {
                seen.push(t.clone());
                assert(seen.deep_view() =~= was.push(t@));
            },
            None => {},
        }
        i += 1;
    }
    assert(all.take(i as int) =~= all);
    seen
}

/// The types in the angle brackets of `ty`, where it is a path whose last name
/// is `name` and has angle brackets.
pub open spec fn types_in(ty: Seq<char>, name: Seq<char>) -> Option<Seq<Seq<char>>> {
    match type_end(ty) {
        (Some(last), Some(args)) => if last == name {
            Some(present(arg_types(args)))
        } else {
            None
        },
        _ => None,
    }
}

/// The types in the angle brackets of `ty`, where it is a path whose last name
/// is `name` and has angle brackets.
pub fn read_types_in(ty: &str, name: &str) -> (r: Option<Vec<String>>)
    ensures
        r.deep_view() == types_in(ty@, name@),
{
    let (last, args) = read_type_end(ty);
    match args {
        Some(args) => if is_name(&last, name) {
            Some(present_types(&read_arg_types(&args)))
        } else {
            None
        },
        None => None,
    }
}

/// Whether `ty` is `Arc<..>` with a sole type in its brackets, whose last name
/// is `TestContext`.
pub open spec fn arc_test_context(ty: Seq<char>) -> bool {
    match types_in(ty, "Arc"@) {
        Some(args) => args.len() == 1 && type_end(args[0]).0 == Some("TestContext"@),
        None => false,
    }
}

/// Whether `ty` is `Arc<..>` with a sole type in its brackets, whose last name
/// is `TestContext`.
pub fn type_is_arc_test_context(ty: &str) -> (r: bool)
    ensures
        r == arc_test_context(ty@),
{
    match read_types_in(ty, "Arc") {
        Some(args) => {
            assert(args@.len() > 0 ==> args.deep_view()[0] == args@[0]@);
            args.len() == 1 && is_name(&read_type_end(&args[0]).0, "TestContext")
        },
        None => false,
    }
}

/// The error type of `ty`, where it is a `Result<..>`: the second of the types
/// in its brackets, or the sole one.
pub open spec fn err_type(ty: Seq<char>) -> Option<Seq<char>> {
    match types_in(ty, "Result"@) {
        Some(args) => if args.len() > 1 {
            Some(args[1])
        } else if args.len() == 1 {
            Some(args[0])
        } else {
            None
        },
        None => None,
    }
}

/// The error type of `ty`, where it is a `Result<..>`.
pub fn result_err_type(ty: &str) -> (r: Option<String>)
    ensures
        r.deep_view() == err_type(ty@),
{
    let args = match read_types_in(ty, "Result") {
        Some(args) => args,
        None => return None,
    };
    if args.len() > 1 {
        assert(args.deep_view()[1] == args@[1]@);
        Some(args[1].clone())
    } else if args.len() == 1 {
        assert(args.deep_view()[0] == args@[0]@);
        Some(args[0].clone())
    } else {
        None
    }
}

/// Whether a trait bound's last name is `Error`.
pub open spec fn error_bound(bound: Seq<char>) -> bool {
    syntax::bound_trait(bound) is Some && path_end(syntax::bound_trait(bound)->0).0 == Some(
        "Error"@,
    )
}

/// Whether a generic argument is a trait object with a bound whose last name
/// is `Error`.
pub open spec fn dyn_error(arg: Seq<char>) -> bool {
    match syntax::arg_type(arg) {
        Some(ty) => match syntax::type_in(ty) {
            syntax::TypeTextV::TraitObject { bounds } => exists|j: int|
                0 <= j < bounds.len() && #[trigger] error_bound(bounds[j]),
            _ => false,
        },
        None => false,
    }
}

#[verifier::loop_isolation(false)]
fn arg_is_dyn_error(arg: &str) -> (r: bool)
    ensures
        r == dyn_error(arg@),
{
    let ty = match syntax::read_arg_type(arg) {
        Some(ty) => ty,
        None => return false,
    };
    let bounds = match syntax::read_type(&ty) {
        TypeText::TraitObject { bounds } => bounds,
        _ => return false,
    };
    let mut j: usize = 0;
    while j < bounds.len()
        invariant
            j <= bounds@.len(),
            forall|k: int| 0 <= k < j ==> !error_bound(#[trigger] bounds.deep_view()[k]),
        decreases bounds@.len() - j,
    {
        assert(bounds.deep_view()[j as int] == bounds@[j as int]@);
        if let Some(path) = syntax::read_bound(&bounds[j]) {
            if is_name(&read_path_end(&path).0, "Error") {
                assert(error_bound(bounds.deep_view()[j as int]));
                return true;
            }
        }
        j += 1;
    }
    false
}

/// Whether `ty` is `Box<dyn Error + ..>`, whatever path names the trait.
pub open spec fn box_dyn_error(ty: Seq<char>) -> bool {
    match type_end(ty) {
        (Some(name), Some(args)) => name == "Box"@ && exists|i: int|
            0 <= i < args.len() && #[trigger] dyn_error(args[i]),
        _ => false,
    }
}

/// Whether `ty` is `Box<dyn Error + ..>`, whatever path names the trait.
#[verifier::loop_isolation(false)]
pub fn type_is_box_dyn_error(ty: &str) -> (r: bool)
    ensures
        r == box_dyn_error(ty@),
{
    let (name, args) = read_type_end(ty);
    let args = match args {
        Some(args) => args,
        None => return false,
    };
    if !is_name(&name, "Box") {
        return false;
    }
    let mut i: usize = 0;
    while i < args.len()
        invariant
            i <= args@.len(),
            forall|k: int| 0 <= k < i ==> !dyn_error(#[trigger] args.deep_view()[k]),
        decreases args@.len() - i,
    {
        assert(args.deep_view()[i as int] == args@[i as int]@);
        if arg_is_dyn_error(&args[i]) {
            return true;
        }
        i += 1;
    }
    false
}

/// The names in the path that `ty` is; none where it is no plain path.
pub open spec fn path_names(ty: Seq<char>) -> Seq<Seq<char>> {
    match syntax::type_in(ty) {
        syntax::TypeTextV::Path { qself: false, path } => match syntax::path_in(path) {
            Some(p) => p.0,
            None => seq![],
        },
        _ => seq![],
    }
}

fn read_path_names(ty: &str) -> (r: Vec<String>)
    ensures
        r.deep_view() == path_names(ty@),
{
    let none: Vec<String> = Vec::new();
    assert(none.deep_view() =~= seq![]);
    match syntax::read_type(ty) {
        TypeText::Path { qself, path } => {
            if qself {
                return none;
            }
            match syntax::read_path(&path) {
                Some(p) => p.0,
                None => none,
            }
        },
        _ => none,
    }
}

/// Whether a path stands for a boxed error trait object: `Error`,
/// `rigtest::Error`, or any path that ends in `BoxError`.
pub open spec fn names_boxed_error(path: Seq<Seq<char>>) -> bool {
    ||| path == seq!["Error"@]
    ||| path == seq!["rigtest"@, "Error"@]
    ||| last_name(path) == Some("BoxError"@)
}

fn is_boxed_error_name(path: &Vec<String>) -> (r: bool)
    ensures
        r == names_boxed_error(path.deep_view()),
{
    let ghost all = path.deep_view();
    let n: usize = path.len();
    if n == 0 {
        return false;
    }
    let last = &path[n - 1];
    proof {
        assert(all.last() == last@);
        if n == 1 {
            assert(all =~= seq![last@]);
        }
        if n == 2 {
            assert(all =~= seq![path@[0]@, last@]);
        }
        assert(seq!["Error"@][0] == "Error"@);
        assert(seq!["rigtest"@, "Error"@][0] == "rigtest"@);
        assert(seq!["rigtest"@, "Error"@][1] == "Error"@);
    }
    if text::same(last, "BoxError") {
        return true;
    }
    text::same(last, "Error") && (n == 1 || (n == 2 && text::same(&path[0], "rigtest")))
}

/// Whether an error pattern cannot be matched against `ty`: it is a boxed
/// error trait object, spelled out or by one of its usual names.
pub open spec fn unmatchable(ty: Seq<char>) -> bool {
    box_dyn_error(ty) || names_boxed_error(path_names(ty))
}

/// Whether an error pattern cannot be matched against `ty`.
pub fn err_type_is_unmatchable(ty: &str) -> (r: bool)
    ensures
        r == unmatchable(ty@),
{
    type_is_box_dyn_error(ty) || is_boxed_error_name(&read_path_names(ty))
}

/// Whether `ty` is `&str`.
pub open spec fn str_ref(ty: Seq<char>) -> bool {
    match syntax::type_in(ty) {
        syntax::TypeTextV::Reference { mutable, elem } => !mutable && syntax::type_in(elem) == (
        syntax::TypeTextV::Path { qself: false, path: "str"@ }),
        _ => false,
    }
}

/// Whether `ty` is `&str`.
pub fn param_is_str_ref(ty: &str) -> (r: bool)
    ensures
        r == str_ref(ty@),
{
    match syntax::read_type(ty) {
        TypeText::Reference { mutable, elem } => if mutable {
            false
        } else {
            match syntax::read_type(&elem) {
                TypeText::Path { qself, path } => !qself && text::same(&path, "str"),
                _ => false,
            }
        },
        _ => false,
    }
}

/// Whether `ty` is a path whose last name is `Preflight`, with no qualified
/// self type.
pub open spec fn preflight_type(ty: Seq<char>) -> bool {
    match syntax::type_in(ty) {
        syntax::TypeTextV::Path { qself, path } => !qself && path_end(path).0 == Some(
            "Preflight"@,
        ),
        _ => false,
    }
}

/// Whether `ty` is a path whose last name is `Preflight`, with no qualified
/// self type.
pub fn return_type_is_preflight(ty: &str) -> (r: bool)
    ensures
        r == preflight_type(ty@),
{
    match syntax::read_type(ty) {
        TypeText::Path { qself, path } => !qself && is_name(&read_path_end(&path).0, "Preflight"),
        _ => false,
    }
}

// ── laws ────────────────────────────────────────────────────────────────────

/// Whether a type is a path with those names and, in angle brackets, those
/// arguments.
pub open spec fn spelled(ty: Seq<char>, names: Seq<Seq<char>>, args: Option<Seq<Seq<char>>>) -> bool {
    syntax::type_in(ty) matches syntax::TypeTextV::Path { qself, path } && syntax::path_in(path)
        == Some((names, args))
}

proof fn lemma_present(types: Seq<Option<Seq<char>>>)
    requires
        forall|i: int| 0 <= i < types.len() ==> (#[trigger] types[i]) is Some,
    ensures
        present(types).len() == types.len(),
        forall|i: int| 0 <= i < types.len() ==> #[trigger] present(types)[i] == types[i]->0,
    decreases types.len(),
{
    if types.len() == 0 {
        reveal(Seq::filter);
        assert(present(types).len() == 0);
    } else {
        let head = types.drop_last();
        assert forall|i: int| 0 <= i < head.len() implies (#[trigger] head[i]) is Some by {
            assert(types[i] is Some);
        }
        lemma_present(head);
        assert(types =~= head.push(types.last()));
        assert(types[types.len() - 1] is Some);
        lemma_present_push(head, types.last());
        assert forall|i: int| 0 <= i < types.len() implies #[trigger] present(types)[i]
            == types[i]->0 by {
            if i < head.len() {
                assert(head[i] == types[i]);
                assert(present(head)[i] == head[i]->0);
            }
        }
    }
}

/// A parameter is the context exactly where its type is an `Arc`, under
/// whatever path, of one type whose last name is `TestContext`.
pub proof fn law_type_of_the_context(
    ty: Seq<char>,
    names: Seq<Seq<char>>,
    arg: Seq<char>,
    inner: Seq<Seq<char>>,
    inner_args: Option<Seq<Seq<char>>>,
)
    requires
        names.len() > 0,
        inner.len() > 0,
        spelled(ty, names, Some(seq![arg])),
        syntax::arg_type(arg) is Some,
        spelled(syntax::arg_type(arg)->0, inner, inner_args),
    ensures
        arc_test_context(ty) <==> names.last() == "Arc"@ && inner.last() == "TestContext"@,
{
    let types = arg_types(seq![arg]);
    assert(types[0] is Some);
    lemma_present(types);
    assert(present(types)[0] == syntax::arg_type(arg)->0);
}

/// An `Arc` of several types, or of none, is not the context's type, whatever
/// the types are.
pub proof fn law_context_stands_alone(ty: Seq<char>, names: Seq<Seq<char>>, args: Seq<Seq<char>>)
    requires
        names.len() > 0,
        spelled(ty, names, Some(args)),
        args.len() != 1,
        forall|i: int| 0 <= i < args.len() ==> syntax::arg_type(#[trigger] args[i]) is Some,
    ensures
        !arc_test_context(ty),
{
    lemma_all_types(args);
}

/// Where every argument is a type, the types are as many as the arguments, in
/// their order.
pub proof fn lemma_all_types(args: Seq<Seq<char>>)
    requires
        forall|i: int| 0 <= i < args.len() ==> syntax::arg_type(#[trigger] args[i]) is Some,
    ensures
        present(arg_types(args)).len() == args.len(),
        forall|i: int|
            0 <= i < args.len() ==> Some(#[trigger] present(arg_types(args))[i])
                == syntax::arg_type(args[i]),
{
    let types = arg_types(args);
    assert forall|i: int| 0 <= i < types.len() implies (#[trigger] types[i]) is Some by {
        assert(types[i] == syntax::arg_type(args[i]));
    }
    lemma_present(types);
}

/// The error type of a `Result`, under whatever path, is the second of its
/// types, or its only one; another type has none.
pub proof fn law_error_type(ty: Seq<char>, names: Seq<Seq<char>>, args: Seq<Seq<char>>)
    requires
        names.len() > 0,
        spelled(ty, names, Some(args)),
        forall|i: int| 0 <= i < args.len() ==> syntax::arg_type(#[trigger] args[i]) is Some,
    ensures
        names.last() != "Result"@ ==> err_type(ty) is None,
        args.len() == 0 ==> err_type(ty) is None,
        names.last() == "Result"@ && args.len() == 1 ==> err_type(ty) == syntax::arg_type(args[0]),
        names.last() == "Result"@ && args.len() > 1 ==> err_type(ty) == syntax::arg_type(args[1]),
{
    lemma_all_types(args);
}

/// No error pattern can be matched against a boxed trait object of `Error`, nor
/// against a type that goes by one of its usual names; it can against a type
/// under any other name.
pub proof fn law_what_no_pattern_matches(ty: Seq<char>, path: Seq<char>, names: Seq<Seq<char>>)
    requires
        syntax::type_in(ty) == (syntax::TypeTextV::Path { qself: false, path }),
        syntax::path_in(path) == Some((names, None::<Seq<Seq<char>>>)),
        names.len() > 0,
    ensures
        unmatchable(ty) <==> {
            ||| names.last() == "BoxError"@
            ||| names.last() == "Error"@ && names.len() == 1
            ||| names.last() == "Error"@ && names.len() == 2 && names[0] == "rigtest"@
        },
{
    assert(path_names(ty) == names);
    assert(!box_dyn_error(ty));
    if names.len() == 1 {
        assert(names =~= seq![names.last()]);
    }
    if names.len() == 2 {
        assert(names =~= seq![names[0], names.last()]);
    }
    assert(seq!["Error"@].last() == "Error"@);
    assert(seq!["rigtest"@, "Error"@].last() == "Error"@);
    assert(seq!["rigtest"@, "Error"@][0] == "rigtest"@);
}

/// Whether a bound of a trait object is a trait whose path ends in `Error`.
pub open spec fn ends_in_error(bound: Seq<char>) -> bool {
    syntax::bound_trait(bound) matches Some(path) && (syntax::path_in(path) matches Some(p)
        && p.0.len() > 0 && p.0.last() == "Error"@)
}

/// Whether an argument is a trait object one of whose bounds is a trait whose
/// path ends in `Error`.
pub open spec fn holds_error(arg: Seq<char>) -> bool {
    match syntax::arg_type(arg) {
        Some(ty) => syntax::type_in(ty) is TraitObject && exists|j: int|
            0 <= j < syntax::type_in(ty)->bounds.len() && #[trigger] ends_in_error(
                syntax::type_in(ty)->bounds[j],
            ),
        None => false,
    }
}

/// A box is unmatchable exactly where what it holds is a trait object one of
/// whose bounds is `Error`, under whatever path.
pub proof fn law_boxed_errors(ty: Seq<char>, names: Seq<Seq<char>>, args: Seq<Seq<char>>)
    requires
        names.len() > 0,
        spelled(ty, names, Some(args)),
    ensures
        box_dyn_error(ty) <==> names.last() == "Box"@ && exists|i: int|
            0 <= i < args.len() && #[trigger] holds_error(args[i]),
{
    assert(type_end(ty) == (Some(names.last()), Some(args)));
    assert forall|i: int| 0 <= i < args.len() implies #[trigger] dyn_error(args[i])
        == holds_error(args[i]) by {
        lemma_holds_error(args[i]);
    }
    if names.last() == "Box"@ {
        if box_dyn_error(ty) {
            let i = choose|i: int| 0 <= i < args.len() && #[trigger] dyn_error(args[i]);
            assert(holds_error(args[i]));
        }
        if exists|i: int| 0 <= i < args.len() && #[trigger] holds_error(args[i]) {
            let i = choose|i: int| 0 <= i < args.len() && #[trigger] holds_error(args[i]);
            assert(dyn_error(args[i]));
        }
    }
}

proof fn lemma_holds_error(arg: Seq<char>)
    ensures
        dyn_error(arg) == holds_error(arg),
{
    if let Some(ty) = syntax::arg_type(arg) {
        if let syntax::TypeTextV::TraitObject { bounds } = syntax::type_in(ty) {
            assert forall|j: int| 0 <= j < bounds.len() implies #[trigger] error_bound(bounds[j])
                == ends_in_error(bounds[j]) by {}
            if exists|j: int| 0 <= j < bounds.len() && #[trigger] error_bound(bounds[j]) {
                let j = choose|j: int| 0 <= j < bounds.len() && #[trigger] error_bound(bounds[j]);
                assert(ends_in_error(bounds[j]));
            }
            if exists|j: int| 0 <= j < bounds.len() && #[trigger] ends_in_error(bounds[j]) {
                let j = choose|j: int| 0 <= j < bounds.len() && #[trigger] ends_in_error(bounds[j]);
                assert(error_bound(bounds[j]));
            }
        }
    }
}

/// A readiness function takes the profile's name exactly as a shared reference
/// to `str`, and returns a type whose last name is `Preflight`, under whatever
/// path but that of a trait's own.
pub proof fn law_types_of_a_readiness_function(
    ty: Seq<char>,
    mutable: bool,
    elem: Seq<char>,
    qself: bool,
    path: Seq<char>,
    names: Seq<Seq<char>>,
    args: Option<Seq<Seq<char>>>,
)
    ensures
        syntax::type_in(ty) == (syntax::TypeTextV::Reference { mutable, elem }) && syntax::type_in(
            elem,
        ) == (syntax::TypeTextV::Path { qself, path }) ==> (str_ref(ty) <==> !mutable && !qself
            && path == "str"@),
        syntax::type_in(ty) == (syntax::TypeTextV::Path { qself, path }) && syntax::path_in(path)
            == Some((names, args)) && names.len() > 0 ==> (preflight_type(ty) <==> !qself
            && names.last() == "Preflight"@),
{
}

} // verus!
