use vstd::prelude::*;

use crate::lang::ast::{Expr, ExprView, Operator};
use crate::lang::lex::{Symbol, SymbolView, Token};
use crate::lang::parse::ParseResult;
use crate::lang::run::{skipped_dist, Deny, ReadResult, Run};

verus! {

#[derive(PartialEq, Eq, Structural, Clone, Copy, Debug)]
pub enum Associativity {
    Left,
    Right,
}

#[derive(PartialEq, Eq, Structural, Clone, Copy, Debug)]
enum Delimiter {
    Comma,
    End,
}

/// Symbols that can start an expression.
pub open spec fn spec_is_expr_symbol(s: SymbolView) -> bool {
    s is Number || s is Identifier || s is LeftParen
}

pub fn is_expr_symbol(token: &Symbol<'_>) -> (is: bool)
    ensures
        is == spec_is_expr_symbol(token@),
{
    match token {
        Symbol::Number(_) => true,
        Symbol::Identifier(_) => true,
        Symbol::LeftParen => true,
        _ => false,
    }
}

/// The binary operator a symbol stands for, with its precedence and associativity.
pub open spec fn spec_operation(s: SymbolView) -> Option<(Operator, u8, Associativity)> {
    match s {
        SymbolView::Assign => Some((Operator::Assign, 1, Associativity::Right)),
        SymbolView::Equals => Some((Operator::Equal, 2, Associativity::Left)),
        SymbolView::NotEqual => Some((Operator::NotEqual, 2, Associativity::Left)),
        SymbolView::LessThan => Some((Operator::LessThan, 2, Associativity::Left)),
        SymbolView::LessEqualThan => Some((Operator::LessEqualThan, 2, Associativity::Left)),
        SymbolView::GreaterThan => Some((Operator::GreaterThan, 2, Associativity::Left)),
        SymbolView::GreaterEqualThan => Some((Operator::GreaterEqualThan, 2, Associativity::Left)),
        SymbolView::Plus => Some((Operator::Add, 3, Associativity::Left)),
        SymbolView::Minus => Some((Operator::Subtract, 3, Associativity::Left)),
        SymbolView::Multiply => Some((Operator::Multiply, 4, Associativity::Left)),
        SymbolView::Divide => Some((Operator::Divide, 4, Associativity::Left)),
        _ => None,
    }
}

fn is_some_operation(token: &Symbol<'_>) -> (op: Option<(Operator, u8, Associativity)>)
    ensures
        op == spec_operation(token@),
{
    match token {
        Symbol::Assign => Some((Operator::Assign, 1, Associativity::Right)),
        Symbol::Equals => Some((Operator::Equal, 2, Associativity::Left)),
        Symbol::NotEqual => Some((Operator::NotEqual, 2, Associativity::Left)),
        Symbol::LessThan => Some((Operator::LessThan, 2, Associativity::Left)),
        Symbol::LessEqualThan => Some((Operator::LessEqualThan, 2, Associativity::Left)),
        Symbol::GreaterThan => Some((Operator::GreaterThan, 2, Associativity::Left)),
        Symbol::GreaterEqualThan => Some((Operator::GreaterEqualThan, 2, Associativity::Left)),
        Symbol::Plus => Some((Operator::Add, 3, Associativity::Left)),
        Symbol::Minus => Some((Operator::Subtract, 3, Associativity::Left)),
        Symbol::Multiply => Some((Operator::Multiply, 4, Associativity::Left)),
        Symbol::Divide => Some((Operator::Divide, 4, Associativity::Left)),
        _ => None,
    }
}

fn is_arg_list_delimiter(symbol: &Symbol<'_>) -> (d: Option<Delimiter>)
    ensures
        d == (match symbol@ {
            SymbolView::Comma => Some(Delimiter::Comma),
            SymbolView::RightParen => Some(Delimiter::End),
            _ => None,
        }),
{
    match symbol {
        Symbol::Comma => Some(Delimiter::Comma),
        Symbol::RightParen => Some(Delimiter::End),
        _ => None,
    }
}

fn is_comma(symbol: &Symbol<'_>) -> (is: bool)
    ensures
        is == (symbol@ == SymbolView::Comma),
{
    *symbol == Symbol::Comma
}

fn is_right_paren(symbol: &Symbol<'_>) -> (is: bool)
    ensures
        is == (symbol@ == SymbolView::RightParen),
{
    *symbol == Symbol::RightParen
}

/* Reading ahead, in the model. */

/// What a read looks for.
pub ghost enum Wanted {
    ExprSymbol,
    StmtSymbol,
    ConsSymbol,
    Identifier,
    Operation,
    Exactly(SymbolView),
}

pub open spec fn is_wanted(w: Wanted, s: SymbolView) -> bool {
    match w {
        Wanted::ExprSymbol => spec_is_expr_symbol(s),
        Wanted::StmtSymbol => crate::lang::grammar::statement::spec_is_stmt_symbol(s),
        Wanted::ConsSymbol => crate::lang::grammar::construct::spec_is_cons_symbol(s),
        Wanted::Identifier => s is Identifier,
        Wanted::Operation => spec_operation(s) is Some,
        Wanted::Exactly(t) => s == t,
    }
}

/// The position of the first token at or after `pos` that is wanted, unless a
/// denied symbol comes first (a wanted token is taken even when denied).
pub open spec fn spec_read<'a>(t: Seq<Token<'a>>, pos: int, w: Wanted, deny: Seq<SymbolView>) -> Option<int>
    decreases t.len() - pos,
{
    if 0 <= pos < t.len() {
        if is_wanted(w, t[pos].symbol@) {
            Some(pos)
        } else if deny.contains(t[pos].symbol@) {
            None
        } else {
            spec_read(t, pos + 1, w, deny)
        }
    } else {
        None
    }
}

pub proof fn lemma_read_bounds<'a>(t: Seq<Token<'a>>, pos: int, w: Wanted, deny: Seq<SymbolView>)
    ensures
        spec_read(t, pos, w, deny) matches Some(i) ==> pos <= i < t.len() && 0 <= i,
    decreases t.len() - pos,
{
    if 0 <= pos < t.len() && !is_wanted(w, t[pos].symbol@) && !deny.contains(t[pos].symbol@) {
        lemma_read_bounds(t, pos + 1, w, deny);
    }
}

pub proof fn lemma_read_found<'a>(t: Seq<Token<'a>>, pos: int, idx: int, w: Wanted, deny: Seq<SymbolView>)
    requires
        0 <= pos <= idx < t.len(),
        is_wanted(w, t[idx].symbol@),
        forall|j: int| pos <= j < idx ==> !is_wanted(w, #[trigger] t[j].symbol@) && !deny.contains(t[j].symbol@),
    ensures
        spec_read(t, pos, w, deny) == Some(idx),
    decreases idx - pos,
{
    if pos < idx {
        lemma_read_found(t, pos + 1, idx, w, deny);
    }
}

pub proof fn lemma_read_not_found<'a>(t: Seq<Token<'a>>, pos: int, w: Wanted, deny: Seq<SymbolView>)
    requires
        0 <= pos,
        forall|j: int|
            pos <= j < t.len() && (forall|k: int| pos <= k < j ==> !deny.contains(#[trigger] t[k].symbol@))
                ==> !is_wanted(w, #[trigger] t[j].symbol@),
    ensures
        spec_read(t, pos, w, deny) is None,
    decreases t.len() - pos,
{
    if pos < t.len() {
        assert(!is_wanted(w, t[pos].symbol@));
        if !deny.contains(t[pos].symbol@) {
            assert forall|j: int|
                pos + 1 <= j < t.len() && (forall|k: int| pos + 1 <= k < j ==> !deny.contains(#[trigger] t[k].symbol@))
                    implies !is_wanted(w, #[trigger] t[j].symbol@) by {
                assert forall|k: int| pos <= k < j implies !deny.contains(#[trigger] t[k].symbol@) by {
                    if k > pos {
                    }
                }
            }
            lemma_read_not_found(t, pos + 1, w, deny);
        }
    }
}

/* The expression grammar, in the model: each function gives the expression read
at a position, and the position and distance after it. */

/// The expression at `pos` that cannot be broken down further: a numeral, a
/// parenthesized expression, a call or a variable.
pub open spec fn spec_atom<'a>(t: Seq<Token<'a>>, pos: int, dist: int, deny: Seq<SymbolView>) -> Option<(ExprView, int, int)>
    decreases t.len() - pos, 1int,
{
    match spec_read(t, pos, Wanted::ExprSymbol, deny) {
        None => None,
        Some(idx) => {
            proof {
                lemma_read_bounds(t, pos, Wanted::ExprSymbol, deny);
            }
            let d1 = dist + skipped_dist(t, pos, idx);
            match t[idx].symbol@ {
                SymbolView::Number(s) => Some(
                    (ExprView::Literal { value: s, index_from: pos, index_to: idx + 1 }, idx + 1, d1),
                ),
                SymbolView::LeftParen => match spec_chain(
                    t,
                    idx + 1,
                    d1,
                    seq![SymbolView::RightParen] + deny,
                    0,
                ) {
                    None => None,
                    Some((e, p2, d2)) => match spec_read(t, p2, Wanted::Exactly(SymbolView::RightParen), deny) {
                        None => None,
                        Some(j) => Some(
                            (
                                ExprView::Parenthesis { expr: Box::new(e), index_from: pos, index_to: j + 1 },
                                j + 1,
                                d2 + skipped_dist(t, p2, j),
                            ),
                        ),
                    },
                },
                SymbolView::Identifier(s) => if idx + 1 < t.len() && t[idx + 1].symbol@ == SymbolView::LeftParen {
                    match spec_arg_list(t, idx + 1, d1, deny) {
                        None => None,
                        Some((args, p2, d2)) => Some(
                            (ExprView::Call { function: s, args, index_from: pos, index_to: p2 }, p2, d2),
                        ),
                    }
                } else {
                    Some((ExprView::Variable { identifier: s, index_from: pos, index_to: idx + 1 }, idx + 1, d1))
                },
                _ => None,
            }
        },
    }
}

/// A parenthesized, comma separated list of arguments at `pos`.
pub open spec fn spec_arg_list<'a>(t: Seq<Token<'a>>, pos: int, dist: int, deny: Seq<SymbolView>) -> Option<(Seq<ExprView>, int, int)>
    decreases t.len() - pos, 1int,
{
    if 0 <= pos < t.len() && t[pos].symbol@ == SymbolView::LeftParen {
        let deny1 = seq![SymbolView::RightParen] + deny;
        let (args, p1, d1) = match spec_chain(t, pos + 1, dist, deny1, 0) {
            None => (Seq::<ExprView>::empty(), pos + 1, dist),
            Some((a, q, dq)) => if pos < q <= t.len() {
                spec_args_loop(t, seq![a], q, dq, seq![SymbolView::Comma] + deny1)
            } else {
                (seq![a], q, dq)
            },
        };
        match spec_read(t, p1, Wanted::Exactly(SymbolView::RightParen), deny1) {
            None => None,
            Some(j) => Some((args, j + 1, d1 + skipped_dist(t, p1, j))),
        }
    } else {
        None
    }
}

/// Further arguments, each after a comma, while they parse.
pub open spec fn spec_args_loop<'a>(t: Seq<Token<'a>>, args: Seq<ExprView>, p: int, d: int, deny: Seq<SymbolView>) -> (Seq<ExprView>, int, int)
    decreases t.len() - p, 0int,
{
    match spec_read(t, p, Wanted::Exactly(SymbolView::Comma), deny) {
        None => (args, p, d),
        Some(c) => {
            proof {
                lemma_read_bounds(t, p, Wanted::Exactly(SymbolView::Comma), deny);
            }
            match spec_chain(t, c + 1, d + skipped_dist(t, p, c), deny, 0) {
                None => (args, p, d),
                Some((a, q, dq)) => if p < q <= t.len() {
                    spec_args_loop(t, args.push(a), q, dq, deny)
                } else {
                    (args.push(a), q, dq)
                },
            }
        },
    }
}

/// An expression whose binary operators all have precedence at least `min_prec`.
pub open spec fn spec_chain<'a>(t: Seq<Token<'a>>, pos: int, dist: int, deny: Seq<SymbolView>, min_prec: u8) -> Option<(ExprView, int, int)>
    decreases t.len() - pos, 2int,
{
    match spec_atom(t, pos, dist, deny) {
        None => None,
        Some((lhs, p, d)) => if pos < p <= t.len() {
            Some(spec_chain_loop(t, lhs, lhs.index_from(), p, d, deny, min_prec))
        } else {
            Some((lhs, p, d))
        },
    }
}

/// Extends `lhs` with operators of precedence at least `min_prec` and their
/// right hand sides, by precedence climbing.
pub open spec fn spec_chain_loop<'a>(
    t: Seq<Token<'a>>,
    lhs: ExprView,
    index_from: int,
    p: int,
    d: int,
    deny: Seq<SymbolView>,
    min_prec: u8,
) -> (ExprView, int, int)
    decreases t.len() - p, 0int,
{
    match spec_read(t, p, Wanted::Operation, deny) {
        None => (lhs, p, d),
        Some(k) => {
            proof {
                lemma_read_bounds(t, p, Wanted::Operation, deny);
            }
            let (operator, prec, assoc) = spec_operation(t[k].symbol@).unwrap();
            if prec < min_prec {
                (lhs, p, d)
            } else {
                let p1 = k + 1;
                let d1 = d + skipped_dist(t, p, k);
                let new_min_prec: u8 = if assoc == Associativity::Left {
                    (prec + 1) as u8
                } else {
                    prec
                };
                match spec_chain(t, p1, d1, deny, new_min_prec) {
                    None => (lhs, p1, d1),
                    Some((rhs, q, dq)) => {
                        let next = ExprView::Binary {
                            left_hand_side: Box::new(lhs),
                            right_hand_side: Box::new(rhs),
                            operator,
                            index_from,
                            index_to: rhs.index_to(),
                        };
                        if p < q <= t.len() {
                            spec_chain_loop(t, next, index_from, q, dq, deny, min_prec)
                        } else {
                            (next, q, dq)
                        }
                    },
                }
            }
        },
    }
}

/* Where a parse begins and ends, in the model. */

proof fn lemma_atom_span<'a>(t: Seq<Token<'a>>, pos: int, dist: int, deny: Seq<SymbolView>)
    requires
        0 <= pos,
    ensures
        spec_atom(t, pos, dist, deny) matches Some((e, p, d)) ==> {
            &&& e.index_from() == pos
            &&& pos < e.index_to() == p <= t.len()
            &&& dist <= d
        },
    decreases t.len() - pos, 1int,
{
    lemma_read_bounds(t, pos, Wanted::ExprSymbol, deny);
    if let Some(idx) = spec_read(t, pos, Wanted::ExprSymbol, deny) {
        let d1 = dist + skipped_dist(t, pos, idx);
        match t[idx].symbol@ {
            SymbolView::LeftParen => {
                lemma_chain_span(t, idx + 1, d1, seq![SymbolView::RightParen] + deny, 0);
                if let Some((e, p2, d2)) = spec_chain(t, idx + 1, d1, seq![SymbolView::RightParen] + deny, 0) {
                    lemma_read_bounds(t, p2, Wanted::Exactly(SymbolView::RightParen), deny);
                }
            },
            SymbolView::Identifier(_) => {
                if idx + 1 < t.len() && t[idx + 1].symbol@ == SymbolView::LeftParen {
                    lemma_arg_list_span(t, idx + 1, d1, deny);
                }
            },
            _ => {},
        }
    }
}

proof fn lemma_arg_list_span<'a>(t: Seq<Token<'a>>, pos: int, dist: int, deny: Seq<SymbolView>)
    requires
        0 <= pos,
    ensures
        spec_arg_list(t, pos, dist, deny) matches Some((args, p, d)) ==> pos < p <= t.len() && dist <= d,
    decreases t.len() - pos, 1int,
{
    if 0 <= pos < t.len() && t[pos].symbol@ == SymbolView::LeftParen {
        let deny1 = seq![SymbolView::RightParen] + deny;
        lemma_chain_span(t, pos + 1, dist, deny1, 0);
        let (args, p1, d1) = match spec_chain(t, pos + 1, dist, deny1, 0) {
            None => (Seq::<ExprView>::empty(), pos + 1, dist),
            Some((a, q, dq)) => if pos < q <= t.len() {
                lemma_args_loop_span(t, seq![a], q, dq, seq![SymbolView::Comma] + deny1);
                spec_args_loop(t, seq![a], q, dq, seq![SymbolView::Comma] + deny1)
            } else {
                (seq![a], q, dq)
            },
        };
        lemma_read_bounds(t, p1, Wanted::Exactly(SymbolView::RightParen), deny1);
    }
}

proof fn lemma_args_loop_span<'a>(t: Seq<Token<'a>>, args: Seq<ExprView>, p: int, d: int, deny: Seq<SymbolView>)
    requires
        0 <= p <= t.len(),
    ensures
        p <= spec_args_loop(t, args, p, d, deny).1 <= t.len(),
        d <= spec_args_loop(t, args, p, d, deny).2,
    decreases t.len() - p, 0int,
{
    lemma_read_bounds(t, p, Wanted::Exactly(SymbolView::Comma), deny);
    if let Some(c) = spec_read(t, p, Wanted::Exactly(SymbolView::Comma), deny) {
        lemma_chain_span(t, c + 1, d + skipped_dist(t, p, c), deny, 0);
        if let Some((a, q, dq)) = spec_chain(t, c + 1, d + skipped_dist(t, p, c), deny, 0) {
            if p < q <= t.len() {
                lemma_args_loop_span(t, args.push(a), q, dq, deny);
            }
        }
    }
}

proof fn lemma_chain_span<'a>(t: Seq<Token<'a>>, pos: int, dist: int, deny: Seq<SymbolView>, min_prec: u8)
    requires
        0 <= pos,
    ensures
        spec_chain(t, pos, dist, deny, min_prec) matches Some((e, p, d)) ==> {
            &&& e.index_from() == pos
            &&& pos < e.index_to() <= p <= t.len()
            &&& dist <= d
        },
    decreases t.len() - pos, 2int,
{
    lemma_atom_span(t, pos, dist, deny);
    if let Some((lhs, p, d)) = spec_atom(t, pos, dist, deny) {
        if pos < p <= t.len() {
            lemma_chain_loop_span(t, lhs, lhs.index_from(), p, d, deny, min_prec);
        }
    }
}

proof fn lemma_chain_loop_span<'a>(
    t: Seq<Token<'a>>,
    lhs: ExprView,
    index_from: int,
    p: int,
    d: int,
    deny: Seq<SymbolView>,
    min_prec: u8,
)
    requires
        0 <= index_from,
        lhs.index_from() == index_from,
        index_from < lhs.index_to() <= p <= t.len(),
    ensures
        ({
            let (e, q, dq) = spec_chain_loop(t, lhs, index_from, p, d, deny, min_prec);
            &&& e.index_from() == index_from
            &&& index_from < e.index_to() <= q <= t.len()
            &&& d <= dq
        }),
    decreases t.len() - p, 0int,
{
    lemma_read_bounds(t, p, Wanted::Operation, deny);
    if let Some(k) = spec_read(t, p, Wanted::Operation, deny) {
        let (operator, prec, assoc) = spec_operation(t[k].symbol@).unwrap();
        if prec >= min_prec {
            let p1 = k + 1;
            let d1 = d + skipped_dist(t, p, k);
            let new_min_prec: u8 = if assoc == Associativity::Left {
                (prec + 1) as u8
            } else {
                prec
            };
            lemma_chain_span(t, p1, d1, deny, new_min_prec);
            if let Some((rhs, q, dq)) = spec_chain(t, p1, d1, deny, new_min_prec) {
                let next = ExprView::Binary {
                    left_hand_side: Box::new(lhs),
                    right_hand_side: Box::new(rhs),
                    operator,
                    index_from,
                    index_to: rhs.index_to(),
                };
                if p < q <= t.len() {
                    lemma_chain_loop_span(t, next, index_from, q, dq, deny, min_prec);
                }
            }
        }
    }
}

/// A parsed expression begins at the position its parse began at and ends,
/// after at least one token, no later than the position the parse stops at;
/// the distance of the parse is at least the distance it started with.
pub proof fn law_expression_span<'a>(t: Seq<Token<'a>>, pos: int, dist: int, deny: Seq<SymbolView>, min_prec: u8)
    requires
        0 <= pos,
    ensures
        spec_chain(t, pos, dist, deny, min_prec) matches Some((e, p, d)) ==> {
            &&& e.index_from() == pos
            &&& pos < e.index_to() <= p <= t.len()
            &&& dist <= d
        },
{
    lemma_chain_span(t, pos, dist, deny, min_prec);
}

/* Precedence and associativity, in the model. */

/// In `a o1 b o2 c`, whether `o2` takes `b` away from `o1`: it binds tighter,
/// or as tightly when `o1` groups to the right.
pub open spec fn binds_right(o1: SymbolView, o2: SymbolView) -> bool {
    let (_, p1, assoc1) = spec_operation(o1).unwrap();
    let (_, p2, _) = spec_operation(o2).unwrap();
    if assoc1 == Associativity::Left {
        p2 > p1
    } else {
        p2 >= p1
    }
}

/// The variable named `name` at token `i`.
pub open spec fn variable_at(name: Seq<u8>, i: int) -> ExprView {
    ExprView::Variable { identifier: name, index_from: i, index_to: i + 1 }
}

/// The binary expression `lhs o rhs` spanning tokens `from..to`.
pub open spec fn binary(o: SymbolView, lhs: ExprView, rhs: ExprView, from: int, to: int) -> ExprView {
    ExprView::Binary {
        left_hand_side: Box::new(lhs),
        right_hand_side: Box::new(rhs),
        operator: spec_operation(o).unwrap().0,
        index_from: from,
        index_to: to,
    }
}

/// The operator of higher precedence binds tighter, and operators of equal
/// precedence group to the left, but for assignment, which groups to the
/// right: `a o1 b o2 c` parses as `a o1 (b o2 c)` when `o2` binds tighter
/// than `o1` (or as tightly, when `o1` is an assignment), and as
/// `(a o1 b) o2 c` otherwise.
pub proof fn law_precedence<'a>(
    t: Seq<Token<'a>>,
    a: Seq<u8>,
    o1: SymbolView,
    b: Seq<u8>,
    o2: SymbolView,
    c: Seq<u8>,
    deny: Seq<SymbolView>,
)
    requires
        t.len() == 6,
        t[0].symbol@ == SymbolView::Identifier(a),
        t[1].symbol@ == o1,
        t[2].symbol@ == SymbolView::Identifier(b),
        t[3].symbol@ == o2,
        t[4].symbol@ == SymbolView::Identifier(c),
        t[5].symbol@ == SymbolView::Eof,
        spec_operation(o1) is Some,
        spec_operation(o2) is Some,
    ensures
        binds_right(o1, o2) ==> spec_chain(t, 0, 0, deny, 0) == Some(
            (binary(o1, variable_at(a, 0), binary(o2, variable_at(b, 2), variable_at(c, 4), 2, 5), 0, 5), 5int, 0int),
        ),
        !binds_right(o1, o2) ==> spec_chain(t, 0, 0, deny, 0) == Some(
            (binary(o2, binary(o1, variable_at(a, 0), variable_at(b, 2), 0, 3), variable_at(c, 4), 0, 5), 5int, 0int),
        ),
{
    let (op1, p1, assoc1) = spec_operation(o1).unwrap();
    let (op2, p2, assoc2) = spec_operation(o2).unwrap();
    let min1: u8 = if assoc1 == Associativity::Left { (p1 + 1) as u8 } else { p1 };
    let min2: u8 = if assoc2 == Associativity::Left { (p2 + 1) as u8 } else { p2 };
    assert(skipped_dist(t, 0, 0) == 0);
    assert(skipped_dist(t, 1, 1) == 0);
    assert(skipped_dist(t, 2, 2) == 0);
    assert(skipped_dist(t, 3, 3) == 0);
    assert(skipped_dist(t, 4, 4) == 0);
    // The three variables.
    assert(spec_read(t, 0, Wanted::ExprSymbol, deny) == Some(0int));
    assert(spec_read(t, 2, Wanted::ExprSymbol, deny) == Some(2int));
    assert(spec_read(t, 4, Wanted::ExprSymbol, deny) == Some(4int));
    assert(spec_atom(t, 0, 0, deny) == Some((variable_at(a, 0), 1int, 0int)));
    // The operators, and nothing after `c`.
    assert(spec_read(t, 1, Wanted::Operation, deny) == Some(1int));
    assert(spec_read(t, 3, Wanted::Operation, deny) == Some(3int));
    assert(spec_read(t, 6, Wanted::Operation, deny) is None);
    assert(spec_read(t, 5, Wanted::Operation, deny) is None);
    // `c` alone, at any minimum precedence.
    assert forall|m: u8| spec_chain(t, 4, 0, deny, m) == Some((variable_at(c, 4), 5int, 0int)) by {
        assert(spec_atom(t, 4, 0, deny) == Some((variable_at(c, 4), 5int, 0int)));
        assert(spec_chain_loop(t, variable_at(c, 4), 4, 5, 0, deny, m) == (variable_at(c, 4), 5int, 0int));
    }
    assert(spec_atom(t, 2, 0, deny) == Some((variable_at(b, 2), 3int, 0int)));
    assert(spec_chain(t, 4, 0, deny, min2) == Some((variable_at(c, 4), 5int, 0int)));
    let bc = binary(o2, variable_at(b, 2), variable_at(c, 4), 2, 5);
    assert(spec_chain_loop(t, bc, 2, 5, 0, deny, min1) == (bc, 5int, 0int));
    if binds_right(o1, o2) {
        assert(spec_chain_loop(t, variable_at(b, 2), 2, 3, 0, deny, min1) == (bc, 5int, 0int));
        assert(spec_chain(t, 2, 0, deny, min1) == Some((bc, 5int, 0int)));
        let whole = binary(o1, variable_at(a, 0), bc, 0, 5);
        assert(spec_chain_loop(t, whole, 0, 5, 0, deny, 0) == (whole, 5int, 0int));
        assert(spec_chain_loop(t, variable_at(a, 0), 0, 1, 0, deny, 0) == (whole, 5int, 0int));
    } else {
        assert(spec_chain_loop(t, variable_at(b, 2), 2, 3, 0, deny, min1) == (variable_at(b, 2), 3int, 0int));
        assert(spec_chain(t, 2, 0, deny, min1) == Some((variable_at(b, 2), 3int, 0int)));
        let ab = binary(o1, variable_at(a, 0), variable_at(b, 2), 0, 3);
        let whole = binary(o2, ab, variable_at(c, 4), 0, 5);
        assert(spec_chain_loop(t, whole, 0, 5, 0, deny, 0) == (whole, 5int, 0int));
        assert(spec_chain_loop(t, ab, 0, 3, 0, deny, 0) == (whole, 5int, 0int));
        assert(spec_chain_loop(t, variable_at(a, 0), 0, 1, 0, deny, 0) == (whole, 5int, 0int));
    }
}

/// The precedence level of a binary operator symbol: assignment 1, the
/// comparisons (`==`, `!=`, `<`, `<=`, `>`, `>=`) 2, `+` and `-` 3, `*` and
/// `/` 4; 0 for any other symbol.
pub open spec fn operator_level(s: SymbolView) -> int {
    match s {
        SymbolView::Assign => 1,
        SymbolView::Equals => 2,
        SymbolView::NotEqual => 2,
        SymbolView::LessThan => 2,
        SymbolView::LessEqualThan => 2,
        SymbolView::GreaterThan => 2,
        SymbolView::GreaterEqualThan => 2,
        SymbolView::Plus => 3,
        SymbolView::Minus => 3,
        SymbolView::Multiply => 4,
        SymbolView::Divide => 4,
        _ => 0,
    }
}

/// The operator a binary operator symbol stands for.
pub open spec fn symbol_operator(s: SymbolView) -> Operator {
    match s {
        SymbolView::Assign => Operator::Assign,
        SymbolView::Equals => Operator::Equal,
        SymbolView::NotEqual => Operator::NotEqual,
        SymbolView::LessThan => Operator::LessThan,
        SymbolView::LessEqualThan => Operator::LessEqualThan,
        SymbolView::GreaterThan => Operator::GreaterThan,
        SymbolView::GreaterEqualThan => Operator::GreaterEqualThan,
        SymbolView::Plus => Operator::Add,
        SymbolView::Minus => Operator::Subtract,
        SymbolView::Multiply => Operator::Multiply,
        _ => Operator::Divide,
    }
}

/// `lhs o rhs` over the tokens `from..to`, with the operator `o` stands for.
pub open spec fn operator_tree(o: SymbolView, lhs: ExprView, rhs: ExprView, from: int, to: int) -> ExprView {
    ExprView::Binary {
        left_hand_side: Box::new(lhs),
        right_hand_side: Box::new(rhs),
        operator: symbol_operator(o),
        index_from: from,
        index_to: to,
    }
}

/// Operators group by their precedence levels: in `a o1 b o2 c`, an `o2` of a
/// higher level than `o1` takes `b` (`a o1 (b o2 c)`), and one of a lower or
/// the same level leaves it to `o1` (`(a o1 b) o2 c`), except that
/// assignments group to the right. So the comparisons bind less tightly than
/// `+` and `-`, which bind less tightly than `*` and `/`.
pub proof fn law_operator_levels<'a>(
    t: Seq<Token<'a>>,
    a: Seq<u8>,
    o1: SymbolView,
    b: Seq<u8>,
    o2: SymbolView,
    c: Seq<u8>,
    deny: Seq<SymbolView>,
)
    requires
        t.len() == 6,
        t[0].symbol@ == SymbolView::Identifier(a),
        t[1].symbol@ == o1,
        t[2].symbol@ == SymbolView::Identifier(b),
        t[3].symbol@ == o2,
        t[4].symbol@ == SymbolView::Identifier(c),
        t[5].symbol@ == SymbolView::Eof,
        operator_level(o1) > 0,
        operator_level(o2) > 0,
    ensures
        (operator_level(o2) > operator_level(o1) || (o1 == SymbolView::Assign && o2 == SymbolView::Assign))
            ==> spec_chain(t, 0, 0, deny, 0) == Some(
            (
                operator_tree(o1, variable_at(a, 0), operator_tree(o2, variable_at(b, 2), variable_at(c, 4), 2, 5), 0, 5),
                5int,
                0int,
            ),
        ),
        !(operator_level(o2) > operator_level(o1) || (o1 == SymbolView::Assign && o2 == SymbolView::Assign))
            ==> spec_chain(t, 0, 0, deny, 0) == Some(
            (
                operator_tree(o2, operator_tree(o1, variable_at(a, 0), variable_at(b, 2), 0, 3), variable_at(c, 4), 0, 5),
                5int,
                0int,
            ),
        ),
{
    assert(spec_operation(o1) is Some && spec_operation(o2) is Some);
    law_precedence(t, a, o1, b, o2, c, deny);
    assert(binds_right(o1, o2) == (operator_level(o2) > operator_level(o1) || (o1 == SymbolView::Assign && o2
        == SymbolView::Assign)));
    assert forall|o: SymbolView, l: ExprView, r: ExprView, from: int, to: int|
        operator_level(o) > 0 implies #[trigger] binary(o, l, r, from, to) == operator_tree(o, l, r, from, to) by {
    }
}

/// `res` is the parse `expected` of the tokens `t`.
pub open spec fn parsed_as<'a>(res: ParseResult<'a, Expr>, t: Seq<Token<'a>>, expected: Option<(ExprView, int, int)>) -> bool {
    match res {
        ParseResult::Success(e, run) => {
            &&& expected matches Some((ev, p, d))
            &&& e@ == ev
            &&& run.wf()
            &&& run.tokens@ == t
            &&& run.position == p
            &&& run.dist == d
        },
        ParseResult::Error => expected is None,
    }
}

/// `res` is the parse `expected` of an argument list of the tokens `t`.
pub open spec fn args_parsed_as<'a>(res: ParseResult<'a, Vec<Expr>>, t: Seq<Token<'a>>, expected: Option<(Seq<ExprView>, int, int)>) -> bool {
    match res {
        ParseResult::Success(args, run) => {
            &&& expected matches Some((av, p, d))
            &&& Expr::views_of(args@) == av
            &&& run.wf()
            &&& run.tokens@ == t
            &&& run.position == p
            &&& run.dist == d
        },
        ParseResult::Error => expected is None,
    }
}

/// A successful parse moves the run forward.
pub open spec fn advances<'a, T>(res: ParseResult<'a, T>, run: Run<'a>) -> bool {
    res matches ParseResult::Success(_, next) ==> run.position < next.position
}

proof fn lemma_views_of_push(s: Seq<Expr>, e: Expr)
    ensures
        Expr::views_of(s.push(e)) == Expr::views_of(s).push(e@),
    decreases s.len(),
{
    if s.len() == 0 {
        assert(s.push(e).drop_first() =~= Seq::<Expr>::empty());
        assert(Expr::views_of(Seq::<Expr>::empty()) =~= Seq::<ExprView>::empty());
        assert(Expr::views_of(s.push(e)) =~= seq![e@]);
    } else {
        lemma_views_of_push(s.drop_first(), e);
        assert(s.push(e).drop_first() =~= s.drop_first().push(e));
        assert(Expr::views_of(s.push(e)) =~= Expr::views_of(s).push(e@));
    }
}

/// Parses a parenthesized, comma separated list of arguments.
#[verifier::spinoff_prover]
#[verifier::rlimit(30)]
fn parse_arg_list_delimited<'a>(run: Run<'a>, deny: &Deny<'a>) -> (res: ParseResult<'a, Vec<Expr>>)
    requires
        run.wf(),
    ensures
        args_parsed_as(
            res,
            run.tokens@,
            spec_arg_list(run.tokens@, run.position as int, run.dist as int, deny.symbols()),
        ),
        advances(res, run),
    decreases run.tokens@.len() - run.position, 1int,
{
    let ghost t = run.tokens@;
    let reading = match run.consume() {
        ReadResult::Found(_, reading) => {
            if *reading.symbol() == Symbol::LeftParen {
                reading
            } else {
                return ParseResult::Error;
            }
        },
        _ => return ParseResult::Error,
    };

    let deny = deny.insert(Symbol::RightParen);
    let start = reading.cont();
    let ghost deny1 = deny.symbols();

    // first argument
    let (args, after) = match parse_expr(start, &deny) {
        ParseResult::Error => (Vec::new(), start),
        ParseResult::Success(arg, first_end) => {
            let mut args = vec![arg];
            let mut cur = first_end;

            let deny = deny.insert(Symbol::Comma);
            let ghost deny2 = deny.symbols();
            proof {
                assert(Expr::views_of(args@) =~= seq![arg@]) by {
                    assert(args@.drop_first() =~= Seq::<Expr>::empty());
                    assert(Expr::views_of(Seq::<Expr>::empty()) =~= Seq::<ExprView>::empty());
                }
            }
            let ghost target = spec_args_loop(t, Expr::views_of(args@), cur.position as int, cur.dist as int, deny2);

            // subsequent arguments
            loop
                invariant
                    cur.wf(),
                    cur.tokens@ == t,
                    t == run.tokens@,
                    run.position < cur.position,
                    deny.symbols() == deny2,
                    deny2 == seq![SymbolView::Comma] + deny1,
                    spec_args_loop(t, Expr::views_of(args@), cur.position as int, cur.dist as int, deny2) == target,
                ensures
                    cur.wf(),
                    cur.tokens@ == t,
                    run.position < cur.position,
                    target == (Expr::views_of(args@), cur.position as int, cur.dist as int),
                decreases t.len() - cur.position,
            {
                let ghost p = cur.position as int;
                let reading = match cur.read_where_true(is_comma, &deny) {
                    ReadResult::Found(_, reading) => reading,
                    ReadResult::NotFound(revert) => {
                        proof {
                            lemma_read_not_found(t, p, Wanted::Exactly(SymbolView::Comma), deny2);
                        }
                        cur = revert;
                        break ;
                    },
                };
                proof {
                    lemma_read_found(t, p, reading.index_to - 1, Wanted::Exactly(SymbolView::Comma), deny2);
                }

                match parse_expr(reading.cont(), &deny) {
                    ParseResult::Error => break ,
                    ParseResult::Success(arg, next) => {
                        proof {
                            lemma_views_of_push(args@, arg);
                        }
                        args.push(arg);
                        cur = next;
                    },
                };
            }

            (args, cur)
        },
    };

    let ghost p1 = after.position as int;
    let reading = match after.read_where_true(is_right_paren, deny) {
        ReadResult::NotFound(_) => {
            proof {
                lemma_read_not_found(t, p1, Wanted::Exactly(SymbolView::RightParen), deny1);
            }
            return ParseResult::Error;
        },
        ReadResult::Found(_, reading) => reading,
    };
    proof {
        lemma_read_found(t, p1, reading.index_to - 1, Wanted::Exactly(SymbolView::RightParen), deny1);
    }

    ParseResult::Success(args, reading.cont())
}

/// Parses an expression that can not be broken down further.
#[verifier::spinoff_prover]
#[verifier::rlimit(30)]
fn parse_expr_atom<'a>(run: Run<'a>, deny: &Deny<'a>) -> (res: ParseResult<'a, Expr>)
    requires
        run.wf(),
    ensures
        parsed_as(res, run.tokens@, spec_atom(run.tokens@, run.position as int, run.dist as int, deny.symbols())),
        advances(res, run),
    decreases run.tokens@.len() - run.position, 1int,
{
    let ghost t = run.tokens@;
    let index_from = run.position();

    let reading = match run.read_where_true(is_expr_symbol, deny) {
        ReadResult::Found(_, reading) => reading,
        ReadResult::NotFound(_) => {
            proof {
                lemma_read_not_found(t, index_from as int, Wanted::ExprSymbol, deny.symbols());
            }
            return ParseResult::Error;
        },
    };
    proof {
        lemma_read_found(t, index_from as int, reading.index_to - 1, Wanted::ExprSymbol, deny.symbols());
    }

    match reading.symbol() {
        Symbol::Number(number_str) => {
            let index_to = reading.index_to();
            let text: &str = *number_str;

            ParseResult::Success(
                Expr::Literal { value: text.to_string(), index_from, index_to },
                reading.cont(),
            )
        },
        Symbol::LeftParen => {
            let inner = deny.insert(Symbol::RightParen);
            let (expr, run) = match parse_expr(reading.cont(), &inner) {
                ParseResult::Error => return ParseResult::Error,
                ParseResult::Success(expr, run) => (expr, run),
            };

            let ghost p2 = run.position as int;
            let reading = match run.read_where_true(
                is_right_paren,
                deny,
            ) {
                ReadResult::NotFound(_) => {
                    proof {
                        lemma_read_not_found(t, p2, Wanted::Exactly(SymbolView::RightParen), deny.symbols());
                    }
                    return ParseResult::Error;
                },
                ReadResult::Found(_, reading) => reading,
            };
            proof {
                lemma_read_found(t, p2, reading.index_to - 1, Wanted::Exactly(SymbolView::RightParen), deny.symbols());
            }

            let index_to = reading.index_to();

            ParseResult::Success(
                Expr::Parenthesis { expr: Box::new(expr), index_from, index_to },
                reading.cont(),
            )
        },
        Symbol::Identifier(ident) => {
            let is_call = match reading.peek_symbol() {
                Some(next) => *next == Symbol::LeftParen,
                None => false,
            };
            let name: &str = *ident;
            if is_call {
                let (args, run) = match parse_arg_list_delimited(reading.cont(), deny) {
                    ParseResult::Error => return ParseResult::Error,
                    ParseResult::Success(args, run) => (args, run),
                };

                let index_to = run.position();

                ParseResult::Success(
                    Expr::Call { function: name.to_string(), args, index_from, index_to },
                    run,
                )
            } else {
                let index_to = reading.index_to();

                ParseResult::Success(
                    Expr::Variable { identifier: name.to_string(), index_from, index_to },
                    reading.cont(),
                )
            }
        },
        _ => vstd::pervasive::unreached(),
    }
}

/// Parses an expression using the precedence climbing method.
///
/// See: https://eli.thegreenplace.net/2012/08/02/parsing-expressions-by-precedence-climbing
///
#[verifier::spinoff_prover]
#[verifier::rlimit(30)]
fn parse_expr_chain<'a>(run: Run<'a>, deny: &Deny<'a>, min_prec: u8) -> (res: ParseResult<'a, Expr>)
    requires
        run.wf(),
    ensures
        parsed_as(res, run.tokens@, spec_chain(run.tokens@, run.position as int, run.dist as int, deny.symbols(), min_prec)),
        advances(res, run),
    decreases run.tokens@.len() - run.position, 2int,
{
    let ghost t = run.tokens@;
    let (mut lhs, mut cur) = match parse_expr_atom(run, deny) {
        ParseResult::Success(expr, next) => (expr, next),
        ParseResult::Error => return ParseResult::Error,
    };

    let index_from = lhs.index_from();
    let ghost target = spec_chain_loop(t, lhs@, index_from as int, cur.position as int, cur.dist as int, deny.symbols(), min_prec);

    loop
        invariant_except_break
            spec_chain_loop(t, lhs@, index_from as int, cur.position as int, cur.dist as int, deny.symbols(), min_prec) == target,
        invariant
            cur.wf(),
            cur.tokens@ == t,
            t == run.tokens@,
            run.position < cur.position,
            spec_chain(t, run.position as int, run.dist as int, deny.symbols(), min_prec) == Some(target),
        ensures
            cur.wf(),
            cur.tokens@ == t,
            run.position < cur.position,
            spec_chain(t, run.position as int, run.dist as int, deny.symbols(), min_prec) == Some(target),
            target == (lhs@, cur.position as int, cur.dist as int),
        decreases t.len() - cur.position,
    {
        let ghost p = cur.position as int;
        let (result, reading) = match cur.read_where_some(is_some_operation, deny) {
            ReadResult::NotFound(unread) => {
                proof {
                    lemma_read_not_found(t, p, Wanted::Operation, deny.symbols());
                }
                return ParseResult::Success(lhs, unread);
            },
            ReadResult::Found(result, reading) => (result, reading),
        };
        proof {
            lemma_read_found(t, p, reading.index_to - 1, Wanted::Operation, deny.symbols());
        }

        let (operator, prec, assoc) = result;

        if prec < min_prec {
            cur = reading.revert();
            break ;
        } else {
            cur = reading.cont();
        }

        let new_min_prec = if assoc == Associativity::Left {
            prec + 1
        } else {
            prec
        };

        let rhs = match parse_expr_chain(cur, deny, new_min_prec) {
            ParseResult::Error => break ,
            ParseResult::Success(rhs, next) => {
                cur = next;
                rhs
            },
        };

        let index_to = rhs.index_to();

        lhs = Expr::Binary {
            left_hand_side: Box::new(lhs),
            right_hand_side: Box::new(rhs),
            operator: operator,
            index_from,
            index_to,
        };
    }

    ParseResult::Success(lhs, cur)
}

/// Parses an expression, stopping before a denied symbol.
#[verifier::spinoff_prover]
#[verifier::rlimit(30)]
pub fn parse_expr<'a>(run: Run<'a>, deny: &Deny<'a>) -> (res: ParseResult<'a, Expr>)
    requires
        run.wf(),
    ensures
        parsed_as(res, run.tokens@, spec_chain(run.tokens@, run.position as int, run.dist as int, deny.symbols(), 0)),
        advances(res, run),
    decreases run.tokens@.len() - run.position, 3int,
{
    parse_expr_chain(run, deny, 0)
}

} // verus!
