use vstd::prelude::*;

use crate::lang::ast::{lemma_stmt_views_of_push, Expr, ExprView, Stmt, StmtView};
use crate::lang::grammar::expression::{
    is_expr_symbol,
    lemma_read_bounds,
    lemma_read_found,
    lemma_read_not_found,
    law_expression_span,
    parse_expr,
    parsed_as,
    spec_chain,
    spec_is_expr_symbol,
    spec_read,
    Wanted,
};
use crate::lang::lex::{Symbol, SymbolView, Token};
use crate::lang::parse::ParseResult;
use crate::lang::run::{skipped_dist, Deny, ReadResult, Reading, Run};

verus! {

/// Symbols that can start a statement.
pub open spec fn spec_is_stmt_symbol(s: SymbolView) -> bool {
    ||| s is LeftBrace
    ||| s is If
    ||| s is While
    ||| s is Forward
    ||| s is Left
    ||| s is Right
    ||| s is Return
    ||| spec_is_expr_symbol(s)
}

// let match statements always return runs instead of readings

pub fn is_stmt_symbol(symbol: &Symbol<'_>) -> (is: bool)
    ensures
        is == spec_is_stmt_symbol(symbol@),
{
    match symbol {
        Symbol::LeftBrace => true,
        Symbol::If => true,
        Symbol::While => true,
        Symbol::Forward => true,
        Symbol::Left => true,
        Symbol::Right => true,
        Symbol::Return => true,
        any => is_expr_symbol(any),
    }
}

fn is_left_paren(symbol: &Symbol<'_>) -> (is: bool)
    ensures
        is == (symbol@ == SymbolView::LeftParen),
{
    *symbol == Symbol::LeftParen
}

fn is_else(symbol: &Symbol<'_>) -> (is: bool)
    ensures
        is == (symbol@ == SymbolView::Else),
{
    *symbol == Symbol::Else
}

fn is_semicolon(symbol: &Symbol<'_>) -> (is: bool)
    ensures
        is == (symbol@ == SymbolView::SemiColon),
{
    *symbol == Symbol::SemiColon
}

/// The outcome of parsing a statement in the model: a value with the position
/// and distance after it, a parse error, or a statement keyword for which the
/// parser has no rule (where it stops the program).
pub ghost enum Outcome<V> {
    Parsed(V, int, int),
    Failed,
    Unsupported,
}

/// The condition of an `if` at `pos`: a `(`, an expression, and then the
/// symbol that the parser checks for after it, which is again `(` (not `)`).
pub open spec fn spec_condition<'a>(t: Seq<Token<'a>>, pos: int, dist: int, deny: Seq<SymbolView>) -> Option<(ExprView, int, int)> {
    if 0 <= pos < t.len() && t[pos].symbol@ == SymbolView::LeftParen {
        match spec_chain(t, pos + 1, dist, seq![SymbolView::RightParen] + deny, 0) {
            None => None,
            Some((e, p, d)) => if 0 <= p < t.len() && t[p].symbol@ == SymbolView::LeftParen {
                Some((e, p + 1, d))
            } else {
                None
            },
        }
    } else {
        None
    }
}

/// The statement at `pos`.
pub open spec fn spec_stmt<'a>(t: Seq<Token<'a>>, pos: int, dist: int, deny: Seq<SymbolView>) -> Outcome<StmtView>
    decreases t.len() - pos, 2int,
{
    match spec_read(t, pos, Wanted::StmtSymbol, deny) {
        None => Outcome::Failed,
        Some(idx) => {
            proof {
                lemma_read_bounds(t, pos, Wanted::StmtSymbol, deny);
            }
            let d1 = dist + skipped_dist(t, pos, idx);
            let s = t[idx].symbol@;
            if s is LeftBrace {
                spec_block(t, pos, idx, d1, deny)
            } else if s is If {
                spec_if(t, pos, idx, d1, deny)
            } else if spec_is_expr_symbol(s) {
                spec_expr_stmt(t, pos, dist, deny)
            } else {
                Outcome::Unsupported
            }
        },
    }
}

/// A block whose `{` is the token at `idx`: the statements after it, with `}`
/// denied (the closing brace is left unread).
pub open spec fn spec_block<'a>(t: Seq<Token<'a>>, pos: int, idx: int, d1: int, deny: Seq<SymbolView>) -> Outcome<StmtView>
    decreases t.len() - pos, 1int,
{
    if pos <= idx < t.len() {
        match spec_list(t, idx + 1, d1, seq![SymbolView::RightBrace] + deny) {
            Outcome::Parsed(body, p, d) => Outcome::Parsed(
                StmtView::Block { body, index_from: pos, index_to: p },
                p,
                d,
            ),
            Outcome::Failed => Outcome::Failed,
            Outcome::Unsupported => Outcome::Unsupported,
        }
    } else {
        Outcome::Failed
    }
}

/// An `if` statement whose keyword is the token at `idx`.
pub open spec fn spec_if<'a>(t: Seq<Token<'a>>, pos: int, idx: int, d1: int, deny: Seq<SymbolView>) -> Outcome<StmtView>
    decreases t.len() - pos, 1int,
{
    match spec_condition(t, idx + 1, d1, deny) {
        None => Outcome::Failed,
        Some((condition, p, d)) => if pos < p <= t.len() {
            match spec_stmt(t, p, d, seq![SymbolView::Else] + deny) {
                Outcome::Parsed(body, q, dq) => if pos < q < t.len() && t[q].symbol@ == SymbolView::Else {
                    match spec_stmt(t, q + 1, dq, deny) {
                        Outcome::Parsed(alternate, r, dr) => Outcome::Parsed(
                            StmtView::If {
                                condition,
                                body: Box::new(body),
                                alternate: Some(Box::new(alternate)),
                                index_from: pos,
                                index_to: r,
                            },
                            r,
                            dr,
                        ),
                        Outcome::Failed => Outcome::Failed,
                        Outcome::Unsupported => Outcome::Unsupported,
                    }
                } else {
                    Outcome::Parsed(
                        StmtView::If { condition, body: Box::new(body), alternate: None, index_from: pos, index_to: q },
                        q,
                        dq,
                    )
                },
                Outcome::Failed => Outcome::Failed,
                Outcome::Unsupported => Outcome::Unsupported,
            }
        } else {
            Outcome::Failed
        },
    }
}

/// An expression statement at `pos`: an expression, then (skipping ahead) a `;`.
pub open spec fn spec_expr_stmt<'a>(t: Seq<Token<'a>>, pos: int, dist: int, deny: Seq<SymbolView>) -> Outcome<StmtView> {
    let deny1 = seq![SymbolView::SemiColon] + deny;
    match spec_chain(t, pos, dist, deny1, 0) {
        None => Outcome::Failed,
        Some((expr, p, d)) => match spec_read(t, p, Wanted::Exactly(SymbolView::SemiColon), deny1) {
            None => Outcome::Failed,
            Some(j) => Outcome::Parsed(
                StmtView::Expression { expr, index_from: pos, index_to: j + 1 },
                j + 1,
                d + skipped_dist(t, p, j),
            ),
        },
    }
}

/// A list of statements at `pos`: a first statement, then statements while
/// they parse, with `;` denied after the first.
pub open spec fn spec_list<'a>(t: Seq<Token<'a>>, pos: int, dist: int, deny: Seq<SymbolView>) -> Outcome<Seq<StmtView>>
    decreases t.len() - pos, 4int,
{
    let deny1 = seq![SymbolView::SemiColon] + deny;
    match spec_stmt(t, pos, dist, deny) {
        Outcome::Parsed(s, p, d) => if pos < p <= t.len() {
            spec_list_loop(t, seq![s], p, d, deny1)
        } else {
            Outcome::Parsed(seq![s], p, d)
        },
        Outcome::Failed => spec_list_loop(t, Seq::empty(), pos, dist, deny1),
        Outcome::Unsupported => Outcome::Unsupported,
    }
}

pub open spec fn spec_list_loop<'a>(t: Seq<Token<'a>>, stmts: Seq<StmtView>, p: int, d: int, deny: Seq<SymbolView>) -> Outcome<Seq<StmtView>>
    decreases t.len() - p, 3int,
{
    match spec_stmt(t, p, d, deny) {
        Outcome::Parsed(s, q, dq) => if p < q <= t.len() {
            spec_list_loop(t, stmts.push(s), q, dq, deny)
        } else {
            Outcome::Parsed(stmts.push(s), q, dq)
        },
        Outcome::Failed => Outcome::Parsed(stmts, p, d),
        Outcome::Unsupported => Outcome::Unsupported,
    }
}

/* Where a statement parse begins and ends, in the model. */

proof fn lemma_stmt_span<'a>(t: Seq<Token<'a>>, pos: int, dist: int, deny: Seq<SymbolView>)
    requires
        0 <= pos,
    ensures
        spec_stmt(t, pos, dist, deny) matches Outcome::Parsed(s, p, d) ==> {
            &&& s.index_from() == pos
            &&& pos < s.index_to() == p <= t.len()
            &&& dist <= d
        },
    decreases t.len() - pos, 2int,
{
    lemma_read_bounds(t, pos, Wanted::StmtSymbol, deny);
    if let Some(idx) = spec_read(t, pos, Wanted::StmtSymbol, deny) {
        let d1 = dist + skipped_dist(t, pos, idx);
        let s = t[idx].symbol@;
        if s is LeftBrace {
            lemma_block_span(t, pos, idx, d1, deny);
        } else if s is If {
            lemma_if_span(t, pos, idx, d1, deny);
        } else if spec_is_expr_symbol(s) {
            let deny1 = seq![SymbolView::SemiColon] + deny;
            law_expression_span(t, pos, dist, deny1, 0);
            if let Some((expr, p, d)) = spec_chain(t, pos, dist, deny1, 0) {
                lemma_read_bounds(t, p, Wanted::Exactly(SymbolView::SemiColon), deny1);
            }
        }
    }
}

proof fn lemma_block_span<'a>(t: Seq<Token<'a>>, pos: int, idx: int, d1: int, deny: Seq<SymbolView>)
    requires
        0 <= pos,
    ensures
        spec_block(t, pos, idx, d1, deny) matches Outcome::Parsed(s, p, d) ==> {
            &&& s.index_from() == pos
            &&& pos < s.index_to() == p <= t.len()
            &&& d1 <= d
        },
    decreases t.len() - pos, 1int,
{
    if pos <= idx < t.len() {
        lemma_list_span(t, idx + 1, d1, seq![SymbolView::RightBrace] + deny);
    }
}

proof fn lemma_if_span<'a>(t: Seq<Token<'a>>, pos: int, idx: int, d1: int, deny: Seq<SymbolView>)
    requires
        0 <= pos <= idx,
    ensures
        spec_if(t, pos, idx, d1, deny) matches Outcome::Parsed(s, p, d) ==> {
            &&& s.index_from() == pos
            &&& pos < s.index_to() == p <= t.len()
            &&& d1 <= d
        },
    decreases t.len() - pos, 1int,
{
    law_expression_span(t, idx + 2, d1, seq![SymbolView::RightParen] + deny, 0);
    if let Some((condition, p, d)) = spec_condition(t, idx + 1, d1, deny) {
        if pos < p <= t.len() {
            lemma_stmt_span(t, p, d, seq![SymbolView::Else] + deny);
            if let Outcome::Parsed(body, q, dq) = spec_stmt(t, p, d, seq![SymbolView::Else] + deny) {
                if pos < q < t.len() && t[q].symbol@ == SymbolView::Else {
                    lemma_stmt_span(t, q + 1, dq, deny);
                }
            }
        }
    }
}

proof fn lemma_list_span<'a>(t: Seq<Token<'a>>, pos: int, dist: int, deny: Seq<SymbolView>)
    requires
        0 <= pos <= t.len(),
    ensures
        spec_list(t, pos, dist, deny) matches Outcome::Parsed(stmts, p, d) ==> pos <= p <= t.len() && dist <= d,
    decreases t.len() - pos, 4int,
{
    let deny1 = seq![SymbolView::SemiColon] + deny;
    lemma_stmt_span(t, pos, dist, deny);
    match spec_stmt(t, pos, dist, deny) {
        Outcome::Parsed(s, p, d) => {
            if pos < p <= t.len() {
                lemma_list_loop_span(t, seq![s], p, d, deny1);
            }
        },
        Outcome::Failed => {
            lemma_list_loop_span(t, Seq::empty(), pos, dist, deny1);
        },
        Outcome::Unsupported => {},
    }
}

proof fn lemma_list_loop_span<'a>(t: Seq<Token<'a>>, stmts: Seq<StmtView>, p: int, d: int, deny: Seq<SymbolView>)
    requires
        0 <= p <= t.len(),
    ensures
        spec_list_loop(t, stmts, p, d, deny) matches Outcome::Parsed(all, q, dq) ==> p <= q <= t.len() && d <= dq,
    decreases t.len() - p, 3int,
{
    lemma_stmt_span(t, p, d, deny);
    if let Outcome::Parsed(s, q, dq) = spec_stmt(t, p, d, deny) {
        if p < q <= t.len() {
            lemma_list_loop_span(t, stmts.push(s), q, dq, deny);
        }
    }
}

proof fn lemma_list_loop_keeps(t: Seq<Token>, stmts: Seq<StmtView>, p: int, d: int, deny: Seq<SymbolView>)
    requires
        0 <= p,
    ensures
        spec_list_loop(t, stmts, p, d, deny) matches Outcome::Parsed(all, _, _) ==> stmts.len() <= all.len()
            && all.subrange(0, stmts.len() as int) == stmts,
    decreases t.len() - p, 3int,
{
    if let Outcome::Parsed(s, q, dq) = spec_stmt(t, p, d, deny) {
        if p < q <= t.len() {
            lemma_list_loop_keeps(t, stmts.push(s), q, dq, deny);
            if let Outcome::Parsed(all, _, _) = spec_list_loop(t, stmts.push(s), q, dq, deny) {
                assert(all.subrange(0, stmts.len() as int) =~= all.subrange(0, stmts.len() + 1int).subrange(
                    0,
                    stmts.len() as int,
                ));
                assert(stmts.push(s).subrange(0, stmts.len() as int) =~= stmts);
            }
        } else {
            assert(stmts.push(s).subrange(0, stmts.len() as int) =~= stmts);
        }
    } else {
        assert(stmts.subrange(0, stmts.len() as int) =~= stmts);
    }
}

/// A list of statements keeps every statement it parses, in order: when the
/// statement at its start parses, that statement is the first of the list,
/// and the statements after it are those parsed where it ends.
pub proof fn law_list_keeps_first_statement<'a>(t: Seq<Token<'a>>, pos: int, dist: int, deny: Seq<SymbolView>)
    requires
        0 <= pos,
    ensures
        spec_stmt(t, pos, dist, deny) matches Outcome::Parsed(first, p, d) ==> {
            &&& !(spec_list(t, pos, dist, deny) is Failed)
            &&& spec_list(t, pos, dist, deny) matches Outcome::Parsed(all, _, _) ==> all.len() >= 1 && all[0]
                == first
            &&& spec_list_loop(t, seq![first], p, d, seq![SymbolView::SemiColon] + deny) == spec_list(
                t,
                pos,
                dist,
                deny,
            )
        },
{
    if let Outcome::Parsed(first, p, d) = spec_stmt(t, pos, dist, deny) {
        law_statement_span(t, pos, dist, deny);
        lemma_list_loop_keeps(t, seq![first], p, d, seq![SymbolView::SemiColon] + deny);
        lemma_list_loop_never_fails(t, seq![first], p, d, seq![SymbolView::SemiColon] + deny);
        if let Outcome::Parsed(all, _, _) = spec_list_loop(t, seq![first], p, d, seq![SymbolView::SemiColon] + deny) {
            assert(all[0] == all.subrange(0, 1)[0]);
        }
    }
}

proof fn lemma_list_loop_never_fails(t: Seq<Token>, stmts: Seq<StmtView>, p: int, d: int, deny: Seq<SymbolView>)
    ensures
        !(spec_list_loop(t, stmts, p, d, deny) is Failed),
    decreases t.len() - p, 3int,
{
    if let Outcome::Parsed(s, q, dq) = spec_stmt(t, p, d, deny) {
        if p < q <= t.len() {
            lemma_list_loop_never_fails(t, stmts.push(s), q, dq, deny);
        }
    }
}

/// A block's body holds every statement parsed inside it, in order: when the
/// statement just after its `{` parses, it is the first statement of the body.
pub proof fn law_block_keeps_first_statement<'a>(t: Seq<Token<'a>>, pos: int, idx: int, d1: int, deny: Seq<SymbolView>)
    requires
        0 <= pos <= idx < t.len(),
    ensures
        spec_stmt(t, idx + 1, d1, seq![SymbolView::RightBrace] + deny) matches Outcome::Parsed(first, _, _) ==> {
            &&& !(spec_block(t, pos, idx, d1, deny) is Failed)
            &&& spec_block(t, pos, idx, d1, deny) matches Outcome::Parsed(block, _, _) ==> (block matches StmtView::Block {
                body,
                ..
            } && body.len() >= 1 && body[0] == first)
        },
{
    law_list_keeps_first_statement(t, idx + 1, d1, seq![SymbolView::RightBrace] + deny);
}

/// A parsed statement begins at the position its parse began at and ends,
/// after at least one token, at the position the parse stops at; the
/// distance of the parse is at least the distance it started with.
pub proof fn law_statement_span<'a>(t: Seq<Token<'a>>, pos: int, dist: int, deny: Seq<SymbolView>)
    requires
        0 <= pos,
    ensures
        spec_stmt(t, pos, dist, deny) matches Outcome::Parsed(s, p, d) ==> {
            &&& s.index_from() == pos
            &&& pos < s.index_to() == p <= t.len()
            &&& dist <= d
        },
{
    lemma_stmt_span(t, pos, dist, deny);
}

/// `res` is the statement parse `expected` of the tokens `t`.
pub open spec fn stmt_parsed_as<'a>(res: ParseResult<'a, Stmt>, t: Seq<Token<'a>>, expected: Outcome<StmtView>) -> bool {
    match res {
        ParseResult::Success(s, run) => {
            &&& expected matches Outcome::Parsed(sv, p, d)
            &&& s@ == sv
            &&& run.wf()
            &&& run.tokens@ == t
            &&& run.position == p
            &&& run.dist == d
        },
        ParseResult::Error => expected is Failed,
    }
}

/// `res` is the statement parse `expected`, or `None` where the model meets a
/// statement keyword without a rule.
pub open spec fn stmt_outcome_as<'a>(res: Option<ParseResult<'a, Stmt>>, t: Seq<Token<'a>>, expected: Outcome<StmtView>) -> bool {
    match res {
        None => expected is Unsupported,
        Some(r) => stmt_parsed_as(r, t, expected),
    }
}

/// `res` is the statement list parse `expected` of the tokens `t`.
pub open spec fn stmts_parsed_as<'a>(res: ParseResult<'a, Vec<Stmt>>, t: Seq<Token<'a>>, expected: Outcome<Seq<StmtView>>) -> bool {
    match res {
        ParseResult::Success(s, run) => {
            &&& expected matches Outcome::Parsed(sv, p, d)
            &&& Stmt::views_of(s@) == sv
            &&& run.wf()
            &&& run.tokens@ == t
            &&& run.position == p
            &&& run.dist == d
        },
        ParseResult::Error => expected is Failed,
    }
}

/// Parses the condition of an `if`: a `(`, an expression with `)` denied,
/// and then one more token, which must be `(` again, not the `)` one might
/// expect: an `if` is accepted only when written that way.
#[verifier::spinoff_prover]
#[verifier::rlimit(30)]
fn parse_condition<'a>(run: Run<'a>, deny: &Deny<'a>) -> (res: ParseResult<'a, Expr>)
    requires
        run.wf(),
    ensures
        parsed_as(res, run.tokens@, spec_condition(run.tokens@, run.position as int, run.dist as int, deny.symbols())),
        res matches ParseResult::Success(_, next) ==> run.position < next.position,
{
    let start = match run.consume_if_true(is_left_paren) {
        ReadResult::Found(_, reading) => reading.cont(),
        _ => return ParseResult::Error,
    };

    let deny = deny.insert(Symbol::RightParen);

    let (expr, after) = match parse_expr(start, &deny) {
        ParseResult::Success(expr, next) => (expr, next),
        ParseResult::Error => return ParseResult::Error,
    };

    let end = match after.consume() {
        ReadResult::Found(_, reading) => {
            if *reading.symbol() == Symbol::LeftParen {
                reading.cont()
            } else {
                return ParseResult::Error;
            }
        },
        _ => return ParseResult::Error,
    };

    ParseResult::Success(expr, end)
}

/// Parses a first statement and then statements while they parse, with `;`
/// denied after the first; this never fails.
#[verifier::spinoff_prover]
#[verifier::rlimit(30)]
fn parse_list_of_stmts<'a>(run: Run<'a>, deny: &Deny<'a>) -> (res: Option<ParseResult<'a, Vec<Stmt>>>)
    requires
        run.wf(),
    ensures
        match res {
            None => spec_list(run.tokens@, run.position as int, run.dist as int, deny.symbols()) is Unsupported,
            Some(r) => {
                &&& stmts_parsed_as(r, run.tokens@, spec_list(run.tokens@, run.position as int, run.dist as int, deny.symbols()))
                &&& r is Success
                &&& r matches ParseResult::Success(_, next) ==> run.position <= next.position
            },
        },
    decreases run.tokens@.len() - run.position, 4int,
{
    let ghost t = run.tokens@;
    let ghost deny0 = deny.symbols();
    proof {
    }
    let mut stmts: Vec<Stmt> = Vec::new();
    let mut cur = run;
    proof {
        assert(Stmt::views_of(Seq::<Stmt>::empty()) =~= Seq::<StmtView>::empty());
    }

    // parse first statement
    match try_parse_stmt(cur, deny) {
        None => return None,
        Some(ParseResult::Success(stmt, next)) => {
            proof {
                lemma_stmt_views_of_push(stmts@, stmt);
            }
            stmts.push(stmt);
            cur = next;
        },
        Some(ParseResult::Error) => {},
    }

    let later_deny = deny.insert(Symbol::SemiColon);
    let ghost deny1 = later_deny.symbols();
    let ghost target = spec_list_loop(t, Stmt::views_of(stmts@), cur.position as int, cur.dist as int, deny1);

    // parse subsequent statements
    loop
        invariant
            cur.wf(),
            cur.tokens@ == t,
            t == run.tokens@,
            run.position <= cur.position,
            later_deny.symbols() == deny1,
            deny.symbols() == deny0,
            spec_list(t, run.position as int, run.dist as int, deny0) == target,
            deny1 == seq![SymbolView::SemiColon] + deny0,
            spec_list_loop(t, Stmt::views_of(stmts@), cur.position as int, cur.dist as int, deny1) == target,
        ensures
            cur.wf(),
            cur.tokens@ == t,
            run.position <= cur.position,
            target == Outcome::Parsed(Stmt::views_of(stmts@), cur.position as int, cur.dist as int),
        decreases t.len() - cur.position,
    {
        match try_parse_stmt(cur, &later_deny) {
            None => {
                assert(spec_list_loop(t, Stmt::views_of(stmts@), cur.position as int, cur.dist as int, deny1)
                    is Unsupported);
                return None;
            },
            Some(ParseResult::Success(stmt, next)) => {
                proof {
                    lemma_stmt_views_of_push(stmts@, stmt);
                }
                stmts.push(stmt);
                cur = next;
            },
            Some(ParseResult::Error) => break ,
        }
    }

    Some(ParseResult::Success(stmts, cur))
}

/// Parses the rest of a block statement, whose `{` is the last token of `reading`.
#[verifier::spinoff_prover]
#[verifier::rlimit(30)]
fn parse_block<'a>(reading: Reading<'a>, deny: &Deny<'a>) -> (res: Option<ParseResult<'a, Stmt>>)
    requires
        reading.wf(),
        reading.source.tokens@[reading.index_to - 1].symbol@ is LeftBrace,
    ensures
        stmt_outcome_as(
            res,
            reading.source.tokens@,
            spec_block(
                reading.source.tokens@,
                reading.index_from as int,
                reading.index_to - 1,
                reading.source.dist + reading.dist,
                deny.symbols(),
            ),
        ),
        res matches Some(ParseResult::Success(_, next)) ==> reading.index_from < next.position,
    decreases reading.source.tokens@.len() - reading.index_from, 1int,
{
    let index_from = reading.index_from();
    let deny = deny.insert(Symbol::RightBrace);

    let (body, next) = match parse_list_of_stmts(reading.cont(), &deny) {
        None => return None,
        Some(ParseResult::Error) => return Some(ParseResult::Error),
        Some(ParseResult::Success(body, next)) => (body, next),
    };

    let index_to = next.position();

    Some(ParseResult::Success(Stmt::Block { body, index_from, index_to }, next))
}

/// Parses the rest of an `if` statement, whose keyword is the last token of `reading`.
#[verifier::spinoff_prover]
#[verifier::rlimit(30)]
fn parse_if<'a>(reading: Reading<'a>, deny: &Deny<'a>) -> (res: Option<ParseResult<'a, Stmt>>)
    requires
        reading.wf(),
    ensures
        stmt_outcome_as(
            res,
            reading.source.tokens@,
            spec_if(
                reading.source.tokens@,
                reading.index_from as int,
                reading.index_to - 1,
                reading.source.dist + reading.dist,
                deny.symbols(),
            ),
        ),
        res matches Some(ParseResult::Success(_, next)) ==> reading.index_from < next.position,
    decreases reading.source.tokens@.len() - reading.index_from, 1int,
{
    let index_from = reading.index_from();

    let (condition, after_condition) = match parse_condition(reading.cont(), deny) {
        ParseResult::Error => return Some(ParseResult::Error),
        ParseResult::Success(expr, next) => (expr, next),
    };

    let (body, after_body) = match try_parse_stmt(after_condition, &deny.insert(Symbol::Else)) {
        None => return None,
        Some(ParseResult::Error) => return Some(ParseResult::Error),
        Some(ParseResult::Success(stmt, next)) => (stmt, next),
    };

    let (end, alternate) = match after_body.consume_if_true(is_else) {
        ReadResult::Found(_, reading) => {
            let (else_stmt, next) = match try_parse_stmt(reading.cont(), deny) {
                None => return None,
                Some(ParseResult::Error) => return Some(ParseResult::Error),
                Some(ParseResult::Success(stmt, next)) => (stmt, next),
            };

            (next, Some(Box::new(else_stmt)))
        },
        ReadResult::NotFound(unread) => (unread, None),
    };

    let index_to = end.position();

    Some(ParseResult::Success(
        Stmt::If { condition, body: Box::new(body), alternate, index_from, index_to },
        end,
    ))
}

/// Parses an expression statement starting where `run` stands.
#[verifier::spinoff_prover]
#[verifier::rlimit(30)]
fn parse_expr_stmt<'a>(run: Run<'a>, deny: &Deny<'a>) -> (res: ParseResult<'a, Stmt>)
    requires
        run.wf(),
    ensures
        stmt_parsed_as(res, run.tokens@, spec_expr_stmt(run.tokens@, run.position as int, run.dist as int, deny.symbols())),
        res matches ParseResult::Success(_, next) ==> run.position < next.position,
{
    let ghost t = run.tokens@;
    let index_from = run.position();
    let deny = deny.insert(Symbol::SemiColon);

    let (expr, after) = match parse_expr(run, &deny) {
        ParseResult::Error => return ParseResult::Error,
        ParseResult::Success(expr, next) => (expr, next),
    };

    let ghost p = after.position as int;
    let end = match after.read_where_true(is_semicolon, deny) {
        ReadResult::NotFound(_) => {
            proof {
                lemma_read_not_found(t, p, Wanted::Exactly(SymbolView::SemiColon), deny.symbols());
            }
            return ParseResult::Error;
        },
        ReadResult::Found(_, reading) => {
            proof {
                lemma_read_found(t, p, reading.index_to - 1, Wanted::Exactly(SymbolView::SemiColon), deny.symbols());
            }
            reading.cont()
        },
    };

    let index_to = end.position();

    ParseResult::Success(Stmt::Expression { expr, index_from, index_to }, end)
}

/// Parses a statement, or gives `None` where the grammar meets a statement
/// keyword (`while`, `forward`, `left`, `right`, `return`) that it has no
/// rule for.
#[verifier::spinoff_prover]
#[verifier::rlimit(30)]
fn try_parse_stmt<'a>(run: Run<'a>, deny: &Deny<'a>) -> (res: Option<ParseResult<'a, Stmt>>)
    requires
        run.wf(),
    ensures
        stmt_outcome_as(res, run.tokens@, spec_stmt(run.tokens@, run.position as int, run.dist as int, deny.symbols())),
        res matches Some(ParseResult::Success(_, next)) ==> run.position < next.position,
    decreases run.tokens@.len() - run.position, 2int,
{
    let ghost t = run.tokens@;
    let index_from = run.position();

    let reading = match run.read_where_true(is_stmt_symbol, deny) {
        ReadResult::Found(_, reading) => reading,
        ReadResult::NotFound(_) => {
            proof {
                lemma_read_not_found(t, index_from as int, Wanted::StmtSymbol, deny.symbols());
            }
            return Some(ParseResult::Error);
        },
    };
    proof {
        lemma_read_found(t, index_from as int, reading.index_to - 1, Wanted::StmtSymbol, deny.symbols());
    }

    match reading.symbol() {
        Symbol::LeftBrace => parse_block(reading, deny),
        Symbol::If => parse_if(reading, deny),
        Symbol::LeftParen | Symbol::Identifier(_) | Symbol::Number(_) => Some(parse_expr_stmt(reading.revert(), deny)),
        _ => None,
    }
}
/// Whether the statement at `run` can be parsed: the grammar meets no
/// statement keyword without a rule on the way.
pub fn stmt_supported<'a>(run: Run<'a>, deny: &Deny<'a>) -> (supported: bool)
    requires
        run.wf(),
    ensures
        supported == !(spec_stmt(run.tokens@, run.position as int, run.dist as int, deny.symbols()) is Unsupported),
{
    try_parse_stmt(run, deny).is_some()
}

/// Parses a statement.
pub fn parse_stmt<'a>(run: Run<'a>, deny: &Deny<'a>) -> (res: ParseResult<'a, Stmt>)
    requires
        run.wf(),
        !(spec_stmt(run.tokens@, run.position as int, run.dist as int, deny.symbols()) is Unsupported),
    ensures
        stmt_parsed_as(res, run.tokens@, spec_stmt(run.tokens@, run.position as int, run.dist as int, deny.symbols())),
        res matches ParseResult::Success(_, next) ==> run.position < next.position,
{
    match try_parse_stmt(run, deny) {
        Some(res) => res,
        None => vstd::pervasive::unreached(),
    }
}

/// Parses statements one after another, as long as they parse; a statement
/// keyword without a rule on the way gives `None`. This never fails otherwise:
/// reading stops at the first statement that does not parse.
pub fn parse_statements<'a>(run: Run<'a>, deny: &Deny<'a>) -> (res: Option<ParseResult<'a, Vec<Stmt>>>)
    requires
        run.wf(),
    ensures
        match spec_list_loop(run.tokens@, Seq::empty(), run.position as int, run.dist as int, deny.symbols()) {
            Outcome::Unsupported => res is None,
            expected => res matches Some(r) && r is Success && stmts_parsed_as(r, run.tokens@, expected),
        },
{
    let ghost t = run.tokens@;
    let ghost target = spec_list_loop(t, Seq::empty(), run.position as int, run.dist as int, deny.symbols());
    let mut stmts: Vec<Stmt> = Vec::new();
    let mut cur = run;
    proof {
        assert(Stmt::views_of(Seq::<Stmt>::empty()) =~= Seq::<StmtView>::empty());
    }
    loop
        invariant
            cur.wf(),
            cur.tokens@ == t,
            t == run.tokens@,
            target == spec_list_loop(t, Seq::empty(), run.position as int, run.dist as int, deny.symbols()),
            spec_list_loop(t, Stmt::views_of(stmts@), cur.position as int, cur.dist as int, deny.symbols()) == target,
        ensures
            cur.wf(),
            cur.tokens@ == t,
            target == Outcome::Parsed(Stmt::views_of(stmts@), cur.position as int, cur.dist as int),
        decreases t.len() - cur.position,
    {
        match try_parse_stmt(cur, deny) {
            None => {
                assert(spec_list_loop(t, Stmt::views_of(stmts@), cur.position as int, cur.dist as int, deny.symbols())
                    is Unsupported);
                return None;
            },
            Some(ParseResult::Success(stmt, next)) => {
                proof {
                    lemma_stmt_views_of_push(stmts@, stmt);
                }
                stmts.push(stmt);
                cur = next;
            },
            Some(ParseResult::Error) => break ,
        }
    }
    Some(ParseResult::Success(stmts, cur))
}

} // verus!
