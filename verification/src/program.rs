//! A small part of Rust: the code that a registered test is made of, how it is
//! written down, and what running it comes to.

use crate::text;
use vstd::prelude::*;

verus! {

/// A piece of code.
pub enum Code {
    /// A name.
    Name(Seq<char>),
    /// A call with those arguments, awaited.
    Call { path: Seq<char>, args: Seq<Seq<char>> },
    /// `value ?`
    Try(Box<Code>),
    /// `{ body }`
    Block(Box<Code>),
    /// `let name = value ; rest`, with a type where there is one.
    Let { name: Seq<char>, ty: Option<Seq<char>>, value: Box<Code>, rest: Box<Code> },
    /// `match on { Ok (()) => ok , Err (name) => err }`
    Match { on: Box<Code>, ok: Box<Code>, name: Seq<char>, err: Box<Code> },
    /// `if cond { yes } else { no }`
    If { cond: Box<Code>, yes: Box<Code>, no: Box<Code> },
    /// `matches ! (& on , pattern)`
    Matches { on: Box<Code>, pattern: Seq<char> },
    /// An error in a box.
    Boxed(Box<Code>),
    /// An error marked as one that is not retried.
    Marked(Box<Code>),
    /// A result with its error, where it has one, in a box.
    MapErr(Box<Code>),
    /// `Ok (())`
    Done,
    /// `Err (error)`
    Fail(Box<Code>),
}

/// How a piece of code is written down.
pub open spec fn source(code: Code) -> Seq<char>
    decreases code,
{
    match code {
        Code::Name(name) => name,
        Code::Call { path, args } => path + " ("@ + text::join(args, " , "@) + ") . await"@,
        Code::Try(value) => source(*value) + " ?"@,
        Code::Block(body) => "{ "@ + source(*body) + " }"@,
        Code::Let { name, ty, value, rest } => match ty {
            Some(ty) => "let "@ + name + " : "@ + ty + " = "@ + source(*value) + " ; "@ + source(
                *rest,
            ),
            None => "let "@ + name + " = "@ + source(*value) + " ; "@ + source(*rest),
        },
        Code::Match { on, ok, name, err } => "match "@ + source(*on)
            + " { :: core :: result :: Result :: Ok (()) => "@ + (if *ok is Block {
            source(*ok)
        } else {
            source(*ok) + " ,"@
        }) + " :: core :: result :: Result :: Err ("@ + name + ") => "@ + source(*err) + " }"@,
        Code::If { cond, yes, no } => "if "@ + source(*cond) + " { "@ + source(*yes)
            + " } else { "@ + source(*no) + " }"@,
        Code::Matches { on, pattern } => "matches ! (& "@ + source(*on) + " , "@ + pattern + ")"@,
        Code::Boxed(error) => ":: std :: boxed :: Box :: from ("@ + source(*error) + ")"@,
        Code::Marked(error) => ":: std :: boxed :: Box :: new (:: rigtest :: NotRetryEligible ("@
            + source(*error) + ") ,)"@,
        Code::MapErr(result) => source(*result)
            + " . map_err (:: std :: boxed :: Box :: < dyn :: std :: error :: Error + :: std :: marker :: Send + :: std :: marker :: Sync > :: from)"@,
        Code::Done => ":: core :: result :: Result :: Ok (())"@,
        Code::Fail(error) => ":: core :: result :: Result :: Err ("@ + source(*error) + ")"@,
    }
}

/// An error: what it is, and whether it is marked as one that is not retried.
pub struct Fault {
    pub what: Seq<char>,
    pub marked: bool,
}

/// A value.
pub enum Worth {
    /// One of which nothing is known.
    Opaque,
    Truth(bool),
    /// A result: a success, or an error.
    Result(Option<Fault>),
    /// An error itself.
    Error(Fault),
}

/// What running a piece of code comes to.
pub enum Ending {
    /// A value.
    Gives(Worth),
    /// The function is left with that error.
    Left(Fault),
    /// Nothing: the code makes no sense.
    Stuck,
}

/// The running of a piece of code: the calls that it makes, in order, and what
/// it comes to.
pub struct Run {
    pub calls: Seq<(Seq<char>, Seq<Seq<char>>)>,
    pub end: Ending,
}

/// What the calls come to, and which errors a pattern matches.
pub struct World {
    /// The error of a call, where it has one.
    pub error: spec_fn((Seq<char>, Seq<Seq<char>>)) -> Option<Fault>,
    pub matches: spec_fn(Seq<char>, Fault) -> bool,
}

/// A run that makes no call.
pub open spec fn at_once(end: Ending) -> Run {
    Run { calls: seq![], end }
}

/// One run behind another.
pub open spec fn behind(first: Run, second: Run) -> Run {
    Run { calls: first.calls + second.calls, end: second.end }
}

/// Running a piece of code, with the values that its names stand for.
pub open spec fn run(code: Code, names: Map<Seq<char>, Worth>, w: World) -> Run
    decreases code,
{
    match code {
        Code::Name(name) => at_once(
            if names.contains_key(name) {
                Ending::Gives(names[name])
            } else {
                Ending::Stuck
            },
        ),
        Code::Call { path, args } => Run {
            calls: seq![(path, args)],
            end: Ending::Gives(Worth::Result((w.error)((path, args)))),
        },
        Code::Try(value) => {
            let r = run(*value, names, w);
            match r.end {
                Ending::Gives(Worth::Result(None)) => Run { end: Ending::Gives(Worth::Opaque), ..r },
                Ending::Gives(Worth::Result(Some(e))) => Run { end: Ending::Left(e), ..r },
                Ending::Left(e) => r,
                _ => Run { end: Ending::Stuck, ..r },
            }
        },
        Code::Block(body) => run(*body, names, w),
        Code::Let { name, ty, value, rest } => {
            let r = run(*value, names, w);
            match r.end {
                Ending::Gives(v) => behind(r, run(*rest, names.insert(name, v), w)),
                _ => r,
            }
        },
        Code::Match { on, ok, name, err } => {
            let r = run(*on, names, w);
            match r.end {
                Ending::Gives(Worth::Result(None)) => behind(r, run(*ok, names, w)),
                Ending::Gives(Worth::Result(Some(e))) => behind(
                    r,
                    run(*err, names.insert(name, Worth::Error(e)), w),
                ),
                Ending::Left(e) => r,
                _ => Run { end: Ending::Stuck, ..r },
            }
        },
        Code::If { cond, yes, no } => {
            let r = run(*cond, names, w);
            match r.end {
                Ending::Gives(Worth::Truth(b)) => behind(
                    r,
                    if b {
                        run(*yes, names, w)
                    } else {
                        run(*no, names, w)
                    },
                ),
                Ending::Left(e) => r,
                _ => Run { end: Ending::Stuck, ..r },
            }
        },
        Code::Matches { on, pattern } => {
            let r = run(*on, names, w);
            match r.end {
                Ending::Gives(Worth::Error(e)) => Run {
                    end: Ending::Gives(Worth::Truth((w.matches)(pattern, e))),
                    ..r
                },
                Ending::Left(e) => r,
                _ => Run { end: Ending::Stuck, ..r },
            }
        },
        Code::Boxed(error) => {
            let r = run(*error, names, w);
            match r.end {
                Ending::Gives(Worth::Error(e)) => r,
                Ending::Left(e) => r,
                _ => Run { end: Ending::Stuck, ..r },
            }
        },
        Code::Marked(error) => {
            let r = run(*error, names, w);
            match r.end {
                Ending::Gives(Worth::Error(e)) => Run {
                    end: Ending::Gives(Worth::Error(Fault { marked: true, ..e })),
                    ..r
                },
                Ending::Left(e) => r,
                _ => Run { end: Ending::Stuck, ..r },
            }
        },
        Code::MapErr(result) => {
            let r = run(*result, names, w);
            match r.end {
                Ending::Gives(Worth::Result(e)) => r,
                Ending::Left(e) => r,
                _ => Run { end: Ending::Stuck, ..r },
            }
        },
        Code::Done => at_once(Ending::Gives(Worth::Result(None))),
        Code::Fail(error) => {
            let r = run(*error, names, w);
            match r.end {
                Ending::Gives(Worth::Error(e)) => Run {
                    end: Ending::Gives(Worth::Result(Some(e))),
                    ..r
                },
                Ending::Left(e) => r,
                _ => Run { end: Ending::Stuck, ..r },
            }
        },
    }
}

} // verus!
