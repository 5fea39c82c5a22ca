use vstd::prelude::*;

use super::run::Run;

verus! {

/// The outcome of a parse: a value and the run after it, or an error.
#[derive(Debug, Clone)]
pub enum ParseResult<'a, T> {
    Success(T, Run<'a>),
    Error,
}

/// `res` is `pr` with its value mapped by `f`: an error stays an error, and a
/// success keeps its run and holds a result of `f` on its value.
pub open spec fn mapped_as<'a, T, U, F: Fn(T) -> U>(pr: ParseResult<'a, T>, f: F, res: ParseResult<'a, U>) -> bool {
    match pr {
        ParseResult::Success(value, run) => res matches ParseResult::Success(mapped, r) && r == run
            && call_ensures(f, (value,), mapped),
        ParseResult::Error => res is Error,
    }
}

/// Mapping by a function that gives back its argument leaves a parse as it
/// was.
pub proof fn law_map_identity<'a, T, F: Fn(T) -> T>(pr: ParseResult<'a, T>, f: F, res: ParseResult<'a, T>)
    requires
        mapped_as(pr, f, res),
        forall|v: T, w: T| call_ensures(f, (v,), w) ==> w == v,
    ensures
        res == pr,
{
}

/// Mapping by `f` and then by `g` gives a parse that mapping once, by a
/// function whose results are those of `g` on those of `f`, also gives.
pub proof fn law_map_composition<'a, T, U, V, F: Fn(T) -> U, G: Fn(U) -> V, H: Fn(T) -> V>(
    pr: ParseResult<'a, T>,
    f: F,
    g: G,
    h: H,
    once: ParseResult<'a, U>,
    twice: ParseResult<'a, V>,
)
    requires
        mapped_as(pr, f, once),
        mapped_as(once, g, twice),
        forall|v: T, u: U, w: V| call_ensures(f, (v,), u) && call_ensures(g, (u,), w) ==> call_ensures(h, (v,), w),
    ensures
        mapped_as(pr, h, twice),
{
}

impl<'a, T> ParseResult<'a, T> {
    pub fn is_ok(&self) -> (ok: bool)
        ensures
            ok == (self is Success),
    {
        match self {
            Self::Error => false,
            _ => true,
        }
    }

    pub fn is_err(&self) -> (err: bool)
        ensures
            err == (self is Error),
    {
        match self {
            Self::Error => true,
            _ => false,
        }
    }

    /// The value and the run of a successful parse.
    pub fn unwrap(self) -> (parts: (T, Run<'a>))
        requires
            self is Success,
        ensures
            self == ParseResult::Success(parts.0, parts.1),
    {
        match self {
            Self::Success(value, run) => (value, run),
            Self::Error => vstd::pervasive::unreached(),
        }
    }

    /// The distance accumulated by a successful parse.
    pub fn dist(&self) -> (d: usize)
        requires
            self is Success,
        ensures
            self matches ParseResult::Success(_, run) && d == run.dist,
    {
        match self {
            Self::Success(_, run) => run.dist(),
            Self::Error => vstd::pervasive::unreached(),
        }
    }

    /// The number of tokens left after a successful parse.
    pub fn remaining_input_len(&self) -> (n: usize)
        requires
            self matches ParseResult::Success(_, run) && run.wf(),
        ensures
            self matches ParseResult::Success(_, run) && n == run.tokens@.len() - run.position,
    {
        match self {
            Self::Success(_, run) => run.remaining_input_len(),
            Self::Error => vstd::pervasive::unreached(),
        }
    }

    /// Applies `map` to the value of a successful parse.
    pub fn map<U, F: Fn(T) -> U>(self, map: F) -> (res: ParseResult<'a, U>)
        requires
            self matches ParseResult::Success(value, _) ==> call_requires(map, (value,)),
        ensures
            mapped_as(self, map, res),
    {
        match self {
            Self::Success(value, run) => ParseResult::Success(map(value), run),
            Self::Error => ParseResult::Error,
        }
    }
}

} // verus!
