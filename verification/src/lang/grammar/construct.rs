use vstd::prelude::*;

use crate::lang::ast::{params_view, Cons, Param, ParamView, Stmt};
use crate::lang::grammar::expression::{
    lemma_read_bounds,
    lemma_read_found,
    lemma_read_not_found,
    spec_read,
    Wanted,
};
use crate::lang::grammar::statement::{is_stmt_symbol, spec_is_stmt_symbol};
use crate::lang::lex::{Symbol, SymbolView, Token};
use crate::lang::parse::ParseResult;
use crate::lang::run::{skipped_dist, Deny, ReadResult, Run};

verus! {

/// Symbols that can start a top-level construct.
pub open spec fn spec_is_cons_symbol(s: SymbolView) -> bool {
    s is Func || spec_is_stmt_symbol(s)
}

fn is_cons_symbol(symbol: &Symbol<'_>) -> (is: bool)
    ensures
        is == spec_is_cons_symbol(symbol@),
{
    match symbol {
        Symbol::Func => true,
        any => is_stmt_symbol(any),
    }
}

fn is_comma(symbol: &Symbol<'_>) -> (is: bool)
    ensures
        is == (symbol@ == SymbolView::Comma),
{
    *symbol == Symbol::Comma
}

fn is_right_paren(symbol: &Symbol<'_>) -> (is: bool)
    ensures
        is == (symbol@ == SymbolView::RightParen),
{
    *symbol == Symbol::RightParen
}

/* Parameters, in the model. */

/// The parameter at `pos`: the next identifier.
pub open spec fn spec_param<'a>(t: Seq<Token<'a>>, pos: int, dist: int, deny: Seq<SymbolView>) -> Option<(ParamView, int, int)> {
    match spec_read(t, pos, Wanted::Identifier, deny) {
        None => None,
        Some(idx) => match t[idx].symbol@ {
            SymbolView::Identifier(name) => Some(
                (
                    ParamView { name, index_from: pos, index_to: idx + 1 },
                    idx + 1,
                    dist + skipped_dist(t, pos, idx),
                ),
            ),
            _ => None,
        },
    }
}

/// Further parameters, each after a comma, while they parse.
pub open spec fn spec_params_loop<'a>(t: Seq<Token<'a>>, params: Seq<ParamView>, p: int, d: int, deny: Seq<SymbolView>) -> (Seq<ParamView>, int, int)
    decreases t.len() - p,
{
    match spec_read(t, p, Wanted::Exactly(SymbolView::Comma), deny) {
        None => (params, p, d),
        Some(c) => {
            proof {
                lemma_read_bounds(t, p, Wanted::Exactly(SymbolView::Comma), deny);
            }
            match spec_param(t, c + 1, d + skipped_dist(t, p, c), deny) {
                None => (params, p, d),
                Some((param, q, dq)) => if p < q <= t.len() {
                    spec_params_loop(t, params.push(param), q, dq, deny)
                } else {
                    (params.push(param), q, dq)
                },
            }
        },
    }
}

/// A parenthesized, comma separated list of parameters at `pos`.
pub open spec fn spec_param_list<'a>(t: Seq<Token<'a>>, pos: int, dist: int, deny: Seq<SymbolView>) -> Option<(Seq<ParamView>, int, int)> {
    if 0 <= pos < t.len() && t[pos].symbol@ == SymbolView::LeftParen {
        let deny1 = seq![SymbolView::RightParen] + deny;
        let (params, p1, d1) = match spec_param(t, pos + 1, dist, deny1) {
            None => (Seq::<ParamView>::empty(), pos + 1, dist),
            Some((param, q, dq)) => spec_params_loop(t, seq![param], q, dq, seq![SymbolView::Comma] + deny1),
        };
        match spec_read(t, p1, Wanted::Exactly(SymbolView::RightParen), deny1) {
            None => None,
            Some(j) => Some((params, j + 1, d1 + skipped_dist(t, p1, j))),
        }
    } else {
        None
    }
}

#[verifier::spinoff_prover]
#[verifier::rlimit(30)]
fn parse_param<'a>(run: Run<'a>, deny: &Deny<'a>) -> (res: ParseResult<'a, Param>)
    requires
        run.wf(),
    ensures
        match res {
            ParseResult::Success(param, next) => {
                &&& spec_param(run.tokens@, run.position as int, run.dist as int, deny.symbols())
                    == Some((param@, next.position as int, next.dist as int))
                &&& next.wf()
                &&& next.tokens@ == run.tokens@
                &&& run.position < next.position
            },
            ParseResult::Error => spec_param(
                run.tokens@,
                run.position as int,
                run.dist as int,
                deny.symbols(),
            ) is None,
        },
{
    let ghost t = run.tokens@;
    let (param, reading) = match run.read_where_some(Symbol::identifier, deny) {
        ReadResult::Found(param, reading) => (param, reading),
        ReadResult::NotFound(_) => {
            proof {
                lemma_read_not_found(t, run.position as int, Wanted::Identifier, deny.symbols());
            }
            return ParseResult::Error;
        },
    };
    proof {
        lemma_read_found(t, run.position as int, reading.index_to - 1, Wanted::Identifier, deny.symbols());
    }

    let param = Param {
        name: param.to_string(),
        index_from: reading.index_from(),
        index_to: reading.index_to(),
    };

    ParseResult::Success(param, reading.cont())
}

#[verifier::spinoff_prover]
#[verifier::rlimit(30)]
fn parse_param_list_delimited<'a>(run: Run<'a>, deny: &Deny<'a>) -> (res: ParseResult<'a, Vec<Param>>)
    requires
        run.wf(),
    ensures
        match res {
            ParseResult::Success(params, next) => {
                &&& spec_param_list(run.tokens@, run.position as int, run.dist as int, deny.symbols())
                    == Some((params_view(params@), next.position as int, next.dist as int))
                &&& next.wf()
                &&& next.tokens@ == run.tokens@
                &&& run.position < next.position
            },
            ParseResult::Error => spec_param_list(
                run.tokens@,
                run.position as int,
                run.dist as int,
                deny.symbols(),
            ) is None,
        },
{
    let ghost t = run.tokens@;
    let reading = match run.consume() {
        ReadResult::Found(_, reading) => {
            if *reading.symbol() == Symbol::LeftParen {
                reading
            } else {
                return ParseResult::Error;
            }
        },
        _ => return ParseResult::Error,
    };

    let deny = deny.insert(Symbol::RightParen);
    let start = reading.cont();
    let ghost deny1 = deny.symbols();

    // first parameter
    let (params, after) = match parse_param(start, &deny) {
        ParseResult::Error => (Vec::new(), start),
        ParseResult::Success(param, first_end) => {
            let mut params = vec![param];
            let mut cur = first_end;

            let deny = deny.insert(Symbol::Comma);
            let ghost deny2 = deny.symbols();
            proof {
                assert(params_view(params@) =~= seq![param@]);
            }
            let ghost target = spec_params_loop(t, params_view(params@), cur.position as int, cur.dist as int, deny2);

            // subsequent parameters
            loop
                invariant
                    cur.wf(),
                    cur.tokens@ == t,
                    t == run.tokens@,
                    run.position < cur.position,
                    deny.symbols() == deny2,
                    deny2 == seq![SymbolView::Comma] + deny1,
                    spec_params_loop(t, params_view(params@), cur.position as int, cur.dist as int, deny2) == target,
                ensures
                    cur.wf(),
                    cur.tokens@ == t,
                    run.position < cur.position,
                    target == (params_view(params@), cur.position as int, cur.dist as int),
                decreases t.len() - cur.position,
            {
                let ghost p = cur.position as int;
                let reading = match cur.read_where_true(is_comma, &deny) {
                    ReadResult::Found(_, reading) => reading,
                    ReadResult::NotFound(revert) => {
                        proof {
                            lemma_read_not_found(t, p, Wanted::Exactly(SymbolView::Comma), deny2);
                        }
                        cur = revert;
                        break ;
                    },
                };
                proof {
                    lemma_read_found(t, p, reading.index_to - 1, Wanted::Exactly(SymbolView::Comma), deny2);
                }

                match parse_param(reading.cont(), &deny) {
                    ParseResult::Error => break ,
                    ParseResult::Success(arg, next) => {
                        proof {
                            assert(params_view(params@.push(arg)) =~= params_view(params@).push(arg@));
                        }
                        params.push(arg);
                        cur = next;
                    },
                };
            }

            (params, cur)
        },
    };

    let ghost p1 = after.position as int;
    let reading = match after.read_where_true(is_right_paren, deny) {
        ReadResult::NotFound(_) => {
            proof {
                lemma_read_not_found(t, p1, Wanted::Exactly(SymbolView::RightParen), deny1);
            }
            return ParseResult::Error;
        },
        ReadResult::Found(_, reading) => reading,
    };
    proof {
        lemma_read_found(t, p1, reading.index_to - 1, Wanted::Exactly(SymbolView::RightParen), deny1);
    }

    ParseResult::Success(params, reading.cont())
}

/// A function header at `pos`: the name after `func`, and its parameter list.
/// `None` when it does not parse.
pub open spec fn spec_func_header<'a>(t: Seq<Token<'a>>, pos: int, dist: int, deny: Seq<SymbolView>) -> Option<(Seq<u8>, Seq<ParamView>, int, int)> {
    match spec_read(t, pos, Wanted::ConsSymbol, deny) {
        None => None,
        Some(i) => {
            let d1 = dist + skipped_dist(t, pos, i);
            match spec_read(t, i + 1, Wanted::Identifier, seq![SymbolView::LeftBrace] + deny) {
                None => None,
                Some(k) => match t[k].symbol@ {
                    SymbolView::Identifier(name) => match spec_param_list(
                        t,
                        k + 1,
                        d1 + skipped_dist(t, i + 1, k),
                        deny,
                    ) {
                        None => None,
                        Some((params, p, d)) => Some((name, params, p, d)),
                    },
                    _ => None,
                },
            }
        },
    }
}

/// Parses a top-level construct. The construct must be a function header
/// (when a construct symbol is found at all): a statement there is not
/// handled. The function is given an empty body and position 0.
#[verifier::rlimit(100)]
pub fn parse_cons<'a>(run: Run<'a>, deny: &Deny<'a>) -> (res: ParseResult<'a, Cons>)
    requires
        run.wf(),
        spec_read(run.tokens@, run.position as int, Wanted::ConsSymbol, deny.symbols()) matches Some(i)
            ==> run.tokens@[i].symbol@ is Func,
    ensures
        match spec_func_header(run.tokens@, run.position as int, run.dist as int, deny.symbols()) {
            None => res is Error,
            Some((name, params, p, d)) => res matches ParseResult::Success(cons, next) && {
                &&& cons matches Cons::Func { name: n, parameters, body, index_from, index_to }
                &&& crate::lang::ast::string_bytes(n) == name
                &&& params_view(parameters@) == params
                &&& body matches Stmt::Block { body: b, index_from: 0, index_to: 0 }
                &&& b@.len() == 0
                &&& index_from == 0
                &&& index_to == 0
                &&& next.wf()
                &&& next.tokens@ == run.tokens@
                &&& next.position == p
                &&& next.dist == d
            },
        },
{
    let ghost t = run.tokens@;
    let reading = match run.read_where_true(is_cons_symbol, deny) {
        ReadResult::Found(_, reading) => reading,
        ReadResult::NotFound(_) => {
            proof {
                lemma_read_not_found(t, run.position as int, Wanted::ConsSymbol, deny.symbols());
            }
            return ParseResult::Error;
        },
    };
    proof {
        lemma_read_found(t, run.position as int, reading.index_to - 1, Wanted::ConsSymbol, deny.symbols());
    }

    match reading.symbol() {
        Symbol::Func => {
            let name_deny = deny.insert(Symbol::LeftBrace);
            let after_func = reading.cont();
            let (name, name_reading) = match after_func.read_where_some(Symbol::identifier, &name_deny) {
                ReadResult::Found(name, reading) => (name, reading),
                ReadResult::NotFound(_) => {
                    proof {
                        lemma_read_not_found(t, after_func.position as int, Wanted::Identifier, name_deny.symbols());
                    }
                    return ParseResult::Error;
                },
            };
            proof {
                lemma_read_found(t, after_func.position as int, name_reading.index_to - 1, Wanted::Identifier, name_deny.symbols());
            }

            let (params, next) = match parse_param_list_delimited(name_reading.cont(), deny) {
                ParseResult::Error => return ParseResult::Error,
                ParseResult::Success(params, next) => (params, next),
            };

            ParseResult::Success(
                Cons::Func {
                    name: name.to_string(),
                    parameters: params,
                    body: Stmt::Block { body: Vec::new(), index_from: 0, index_to: 0 },
                    index_from: 0,
                    index_to: 0,
                },
                next,
            )
        },
        _ => vstd::pervasive::unreached(),
    }
}

} // verus!
