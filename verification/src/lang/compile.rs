use vstd::prelude::*;

use super::ast::{Cons, Expr, MoveDirection, Operator, Param, Stmt};
use crate::machine::cpu::Op;

verus! {

/// Where a variable lives: in the current call frame or in the globals at the
/// bottom of the stack.
#[derive(Clone, Copy, Debug, PartialEq, Eq, Structural)]
pub enum Loc {
    Local(i32),
    Global(i32),
}

/// Whether new variables become locals (inside a function) or globals.
#[derive(Clone, Copy, Debug, PartialEq, Eq, Structural)]
pub enum Scope {
    Local,
    Global,
}

pub open spec fn spec_to_loc(scope: Scope, at: i32) -> Loc {
    match scope {
        Scope::Local => Loc::Local(at),
        Scope::Global => Loc::Global(at),
    }
}

fn to_loc(scope: Scope, at: i32) -> (loc: Loc)
    ensures
        loc == spec_to_loc(scope, at),
{
    match scope {
        Scope::Local => Loc::Local(at),
        Scope::Global => Loc::Global(at),
    }
}

/// A value the compiler's `i32` bookkeeping can hold.
pub open spec fn fits(x: int) -> bool {
    i32::MIN <= x <= i32::MAX
}

/// The variables in scope, in the order they were bound.
pub type EnvView = Seq<(Seq<char>, Loc)>;

pub open spec fn env_view(env: Seq<(String, Loc)>) -> EnvView {
    env.map_values(|entry: (String, Loc)| (entry.0@, entry.1))
}

/// The location of `name`: its most recent binding.
pub open spec fn lookup(env: EnvView, name: Seq<char>) -> Option<Loc>
    decreases env.len(),
{
    if env.len() == 0 {
        None
    } else if env.last().0 == name {
        Some(env.last().1)
    } else {
        lookup(env.drop_last(), name)
    }
}

pub open spec fn spec_load(l: Loc) -> Op {
    match l {
        Loc::Global(a) => Op::LoadG(a),
        Loc::Local(a) => Op::LoadL(a),
    }
}

pub open spec fn spec_store(l: Loc) -> Op {
    match l {
        Loc::Global(a) => Op::StoreG(a),
        Loc::Local(a) => Op::StoreL(a),
    }
}

/// The instruction of a binary operator other than assignment.
pub open spec fn spec_operator_op(o: Operator) -> Op {
    match o {
        Operator::Add => Op::Add,
        Operator::Subtract => Op::Sub,
        Operator::Multiply => Op::Mul,
        Operator::Divide => Op::Div,
        Operator::GreaterThan => Op::Gt,
        Operator::LessThan => Op::Lt,
        Operator::GreaterEqualThan => Op::Gte,
        Operator::LessEqualThan => Op::Lte,
        Operator::Equal => Op::Eq,
        Operator::NotEqual => Op::Neq,
        Operator::Assign => Op::Ret,
    }
}

pub open spec fn spec_move_op(d: MoveDirection) -> Op {
    match d {
        MoveDirection::MoveForward => Op::Movf,
        MoveDirection::TurnLeft => Op::Movl,
        MoveDirection::TurnRight => Op::Movr,
    }
}

/// `f` reads every numeral, and gives the same bits for the same numeral.
pub open spec fn numeral_reader<F: Fn(&String) -> u64>(f: F) -> bool {
    &&& forall|s: &String| call_requires(f, (s,))
    &&& forall|s: &String, a: u64, b: u64|
        #![trigger call_ensures(f, (s,), a), call_ensures(f, (s,), b)]
        call_ensures(f, (s,), a) && call_ensures(f, (s,), b) ==> a == b
}

/// The bits that `f` gives for the numeral `s`.
pub open spec fn numeral_bits<F: Fn(&String) -> u64>(f: F, s: String) -> u64 {
    choose|b: u64| call_ensures(f, (&s,), b)
}

/// What compiling yields: the code, the next free slot, the number of slots
/// allocated, and the variables in scope afterwards.
pub type Compiled = (Seq<Op>, int, int, EnvView);

/// The compilation of expression `e` with variables `env`, next free slot
/// `ptr` and new variables placed by `scope`; `None` where an undefined
/// variable is read, something other than a variable is assigned, or the
/// bookkeeping leaves `i32`.
pub open spec fn compiled_expr<F: Fn(&String) -> u64>(f: F, e: Expr, env: EnvView, ptr: int, scope: Scope) -> Option<Compiled>
    decreases e, 1int,
{
    match e {
        Expr::Literal { value, .. } => Some((seq![Op::PushF(numeral_bits(f, value))], ptr, 0, env)),
        Expr::Parenthesis { expr, .. } => compiled_expr(f, *expr, env, ptr, scope),
        Expr::Variable { identifier, .. } => match lookup(env, identifier@) {
            None => None,
            Some(l) => Some((seq![spec_load(l)], ptr, 0, env)),
        },
        Expr::Call { .. } => compiled_call(f, e, env, ptr, scope),
        Expr::Binary { operator, .. } => if operator == Operator::Assign {
            compiled_assign(f, e, env, ptr, scope)
        } else {
            compiled_binary(f, e, env, ptr, scope)
        },
    }
}

/// `lhs op rhs`: the code of `lhs`, then that of `rhs`, then the operator.
pub open spec fn compiled_binary<F: Fn(&String) -> u64>(f: F, e: Expr, env: EnvView, ptr: int, scope: Scope) -> Option<Compiled>
    decreases e, 0int,
{
    match e {
        Expr::Binary { left_hand_side, right_hand_side, operator, .. } => match compiled_expr(
            f,
            *left_hand_side,
            env,
            ptr,
            scope,
        ) {
            None => None,
            Some((c1, p1, a1, e1)) => match compiled_expr(f, *right_hand_side, e1, p1, scope) {
                None => None,
                Some((c2, p2, a2, e2)) => if fits(a1 + a2) {
                    Some(((c1 + c2).push(spec_operator_op(operator)), p2, a1 + a2, e2))
                } else {
                    None
                },
            },
        },
        _ => None,
    }
}

/// `x = rhs`: the code of `rhs`, then a store to `x`, which is given the next
/// free slot when it is not bound yet.
pub open spec fn compiled_assign<F: Fn(&String) -> u64>(f: F, e: Expr, env: EnvView, ptr: int, scope: Scope) -> Option<Compiled>
    decreases e, 0int,
{
    match e {
        Expr::Binary { left_hand_side, right_hand_side, .. } => match compiled_expr(
            f,
            *right_hand_side,
            env,
            ptr,
            scope,
        ) {
            None => None,
            Some((c, p, a, e1)) => match *left_hand_side {
                Expr::Variable { identifier, .. } => match lookup(e1, identifier@) {
                    Some(l) => Some((c.push(spec_store(l)), p, a, e1)),
                    None => if fits(p + 1) && fits(a + 1) {
                        let l = spec_to_loc(scope, p as i32);
                        Some((c.push(spec_store(l)), p + 1, a + 1, e1.push((identifier@, l))))
                    } else {
                        None
                    },
                },
                _ => None,
            },
        },
        _ => None,
    }
}

/// A call: its arguments from last to first, then `Sin` for a call of `sin`
/// with one argument, or else the call, the removal of the arguments and the
/// load of the return value.
pub open spec fn compiled_call<F: Fn(&String) -> u64>(f: F, e: Expr, env: EnvView, ptr: int, scope: Scope) -> Option<Compiled>
    decreases e, 0int,
{
    match e {
        Expr::Call { function, args, .. } => match compiled_args(
            f,
            args@,
            args@.len() as int,
            (Seq::empty(), ptr, 0, env),
            scope,
        ) {
            None => None,
            Some((code, p, a, e1)) => if function@ == seq!['s', 'i', 'n'] && args@.len() == 1 {
                Some((code.push(Op::Sin), p, a, e1))
            } else if fits(args@.len() as int) {
                Some(
                    (
                        code.push(Op::Call(function)).push(Op::Ajs(-(args@.len() as int) as i32)).push(
                            Op::LoadRR,
                        ),
                        p,
                        a,
                        e1,
                    ),
                )
            } else {
                None
            },
        },
        _ => None,
    }
}

/// The arguments `args[0..n]`, last first, added to `acc`; each one's slot
/// counter is added to the running one.
pub open spec fn compiled_args<F: Fn(&String) -> u64>(f: F, args: Seq<Expr>, n: int, acc: Compiled, scope: Scope) -> Option<Compiled>
    decreases args, n,
{
    if n <= 0 || n > args.len() {
        Some(acc)
    } else {
        match compiled_expr(f, args[n - 1], acc.3, acc.1, scope) {
            None => None,
            Some((c, p, a, e)) => if fits(acc.1 + p) && fits(acc.2 + a) {
                compiled_args(f, args, n - 1, (acc.0 + c, acc.1 + p, acc.2 + a, e), scope)
            } else {
                None
            },
        }
    }
}

/// The compilation of statement `s`: `None` where one of its expressions has
/// none or the bookkeeping leaves `i32`.
pub open spec fn compiled_stmt<F: Fn(&String) -> u64>(f: F, s: Stmt, env: EnvView, ptr: int, scope: Scope) -> Option<Compiled>
    decreases s, 1int,
{
    match s {
        Stmt::Block { .. } => compiled_block(f, s, env, ptr, scope),
        Stmt::If { .. } => compiled_if(f, s, env, ptr, scope),
        Stmt::Expression { expr, .. } => match compiled_expr(f, expr, env, ptr, scope) {
            None => None,
            Some((c, p, a, e)) => Some((c.push(Op::Ajs(-1i32)), p, a, e)),
        },
        Stmt::Move { argument, direction, .. } => match compiled_expr(f, argument, env, ptr, scope) {
            None => None,
            Some((c, p, a, e)) => Some((c.push(spec_move_op(direction)), p, a, e)),
        },
    }
}

/// A block: its statements in order, in a copy of the variables, so that
/// what they bind is gone after it; the slot counter is given back as it was.
pub open spec fn compiled_block<F: Fn(&String) -> u64>(f: F, s: Stmt, env: EnvView, ptr: int, scope: Scope) -> Option<Compiled>
    decreases s, 0int,
{
    match s {
        Stmt::Block { body, .. } => match compiled_seq(f, body@, 0, (Seq::empty(), ptr, ptr, env), scope) {
            None => None,
            Some((code, _, allocs, _)) => Some((code, ptr, allocs, env)),
        },
        _ => None,
    }
}

/// The statements `stmts[i..]` added to `acc`, whose counters are the slot
/// counter and the allocation count of the last statement compiled.
pub open spec fn compiled_seq<F: Fn(&String) -> u64>(f: F, stmts: Seq<Stmt>, i: int, acc: Compiled, scope: Scope) -> Option<Compiled>
    decreases stmts, stmts.len() - i,
{
    if i < 0 || i >= stmts.len() {
        Some(acc)
    } else {
        match compiled_stmt(f, stmts[i], acc.3, acc.1, scope) {
            None => None,
            Some((c, p, a, e)) => compiled_seq(
                f,
                stmts,
                i + 1,
                (acc.0 + c, p, if p >= a { p } else { a }, e),
                scope,
            ),
        }
    }
}

/// `if`: the condition, a branch past the body when it is false, and the
/// body; with an `else`, a jump past the alternative ends the body.
pub open spec fn compiled_if<F: Fn(&String) -> u64>(f: F, s: Stmt, env: EnvView, ptr: int, scope: Scope) -> Option<Compiled>
    decreases s, 0int,
{
    match s {
        Stmt::If { condition, body, alternate, .. } => match compiled_expr(f, condition, env, ptr, scope) {
            None => None,
            Some((ce, p, a1, e1)) => match compiled_stmt(f, *body, e1, p, scope) {
                None => None,
                Some((cb, _, a2, e2)) => match alternate {
                    None => if fits(cb.len() as int) && fits(a1 + a2) {
                        Some((ce.push(Op::Brf(cb.len() as i32)) + cb, p, a1 + a2, e2))
                    } else {
                        None
                    },
                    Some(alt) => match compiled_stmt(f, *alt, e2, p, scope) {
                        None => None,
                        Some((ca, _, a3, e3)) => if fits(1 + cb.len() as int) && fits(ca.len() as int) && fits(
                            a1 + a2,
                        ) && fits(a1 + a3) {
                            Some(
                                (
                                    (ce.push(Op::Brf((1 + cb.len()) as i32)) + cb).push(Op::Bra(ca.len() as i32))
                                        + ca,
                                    p,
                                    if a1 + a2 >= a1 + a3 {
                                        a1 + a2
                                    } else {
                                        a1 + a3
                                    },
                                    e3,
                                ),
                            )
                        } else {
                            None
                        },
                    },
                },
            },
        },
        _ => None,
    }
}

/// The parameters of a function bound below its frame: the first at -3, the
/// next at -4, and so on.
pub open spec fn param_entries(params: Seq<Param>) -> EnvView {
    Seq::new(params.len(), |i: int| (params[i].name@, Loc::Local((-3 - i) as i32)))
}

/// The body's code, ending in a return.
pub open spec fn with_return(code: Seq<Op>) -> Seq<Op> {
    if code.len() > 0 && code.last() == Op::Ret {
        code
    } else {
        code.push(Op::Ret)
    }
}

/// A top-level construct. A function jumps over its own code, which is its
/// label, the allocation of its locals and its body, compiled in a copy of
/// the variables with its parameters bound; a statement is compiled with new
/// variables as globals.
pub open spec fn compiled_entry<F: Fn(&String) -> u64>(f: F, c: Cons, env: EnvView, ptr: int) -> Option<Compiled> {
    match c {
        Cons::Func { name, parameters, body, .. } => if fits(-3 - parameters@.len()) {
            match compiled_stmt(f, body, env + param_entries(parameters@), 0, Scope::Local) {
                None => None,
                Some((cb, _, allocs, _)) => {
                    let code = with_return(cb);
                    if fits(code.len() + 2int) {
                        Some((seq![Op::Bra((code.len() + 2) as i32), Op::Label(name), Op::Ajs(allocs as i32)] + code, ptr, allocs, env))
                    } else {
                        None
                    }
                },
            }
        } else {
            None
        },
        Cons::Statement { stmt, .. } => compiled_stmt(f, stmt, env, ptr, Scope::Global),
    }
}

/// The constructs `program[i..]` added to `acc`.
pub open spec fn compiled_entries<F: Fn(&String) -> u64>(f: F, program: Seq<Cons>, i: int, acc: Compiled) -> Option<Compiled>
    decreases program.len() - i,
{
    if i < 0 || i >= program.len() {
        Some(acc)
    } else {
        match compiled_entry(f, program[i], acc.3, acc.1) {
            None => None,
            Some((c, p, a, e)) => compiled_entries(
                f,
                program,
                i + 1,
                (acc.0 + c, p, if p >= a { p } else { a }, e),
            ),
        }
    }
}

/// The code of a program: the allocation of its globals, then its constructs.
pub open spec fn compiled_program<F: Fn(&String) -> u64>(f: F, program: Seq<Cons>) -> Option<Seq<Op>> {
    match compiled_entries(f, program, 0, (Seq::empty(), 0, 0, Seq::empty())) {
        None => None,
        Some((body, _, allocs, _)) => Some(seq![Op::Ajs(allocs as i32)] + body),
    }
}

/// `res`, with the variables `env` after it, is the compilation `expected`.
pub open spec fn compiled_as(res: Option<(Vec<Op>, i32, i32)>, env: Seq<(String, Loc)>, expected: Option<Compiled>) -> bool {
    match expected {
        None => res is None,
        Some((c, p, a, e)) => res matches Some((code, rp, ra)) && code@ == c && rp == p && ra == a
            && env_view(env) == e,
    }
}

proof fn lemma_numeral_bits<F: Fn(&String) -> u64>(f: F, s: &String, b: u64)
    requires
        numeral_reader(f),
        call_ensures(f, (s,), b),
    ensures
        b == numeral_bits(f, *s),
{
    let c = numeral_bits(f, *s);
    assert(call_ensures(f, (s,), c));
}

fn load_op(l: Loc) -> (op: Op)
    ensures
        op == spec_load(l),
{
    match l {
        Loc::Global(a) => Op::LoadG(a),
        Loc::Local(a) => Op::LoadL(a),
    }
}

fn store_op(l: Loc) -> (op: Op)
    ensures
        op == spec_store(l),
{
    match l {
        Loc::Global(a) => Op::StoreG(a),
        Loc::Local(a) => Op::StoreL(a),
    }
}

fn operator_op(o: Operator) -> (op: Op)
    ensures
        op == spec_operator_op(o),
{
    match o {
        Operator::Add => Op::Add,
        Operator::Subtract => Op::Sub,
        Operator::Multiply => Op::Mul,
        Operator::Divide => Op::Div,
        Operator::GreaterThan => Op::Gt,
        Operator::LessThan => Op::Lt,
        Operator::GreaterEqualThan => Op::Gte,
        Operator::LessEqualThan => Op::Lte,
        Operator::Equal => Op::Eq,
        Operator::NotEqual => Op::Neq,
        Operator::Assign => Op::Ret,
    }
}

fn move_op(d: &MoveDirection) -> (op: Op)
    ensures
        op == spec_move_op(*d),
{
    match d {
        MoveDirection::MoveForward => Op::Movf,
        MoveDirection::TurnLeft => Op::Movl,
        MoveDirection::TurnRight => Op::Movr,
    }
}

/// The location bound to `name`, if any.
fn lookup_env(env: &Vec<(String, Loc)>, name: &String) -> (l: Option<Loc>)
    ensures
        l == lookup(env_view(env@), name@),
{
    let ghost view = env_view(env@);
    let mut j = env.len();
    assert(view.take(j as int) =~= view);
    while j > 0
        invariant
            j <= env@.len(),
            view == env_view(env@),
            lookup(view, name@) == lookup(view.take(j as int), name@),
        decreases j,
    {
        proof {
            assert(view.take(j as int).drop_last() =~= view.take(j - 1));
            assert(view.take(j as int).last() == view[j - 1]);
        }
        if env[j - 1].0 == *name {
            return Some(env[j - 1].1);
        }
        j -= 1;
    }
    None
}

/// A copy of the variables.
fn copy_env(env: &Vec<(String, Loc)>) -> (copy: Vec<(String, Loc)>)
    ensures
        env_view(copy@) == env_view(env@),
{
    let mut copy: Vec<(String, Loc)> = Vec::new();
    let mut i: usize = 0;
    while i < env.len()
        invariant
            i <= env@.len(),
            env_view(copy@) =~= env_view(env@).take(i as int),
        decreases env@.len() - i,
    {
        let ghost before = copy@;
        let name = env[i].0.clone();
        copy.push((name, env[i].1));
        assert(copy@ =~= before.push((name, env@[i as int].1)));
        assert(env_view(copy@) =~= env_view(before).push((env@[i as int].0@, env@[i as int].1)));
        assert(env_view(env@).take(i + 1) =~= env_view(env@).take(i as int).push(env_view(env@)[i as int]));
        i += 1;
    }
    assert(env_view(env@).take(i as int) =~= env_view(env@));
    copy
}

/// Binds `name` at `l`, after every earlier binding.
fn bind(env: &mut Vec<(String, Loc)>, name: &String, l: Loc)
    ensures
        env_view(final(env)@) == env_view(old(env)@).push((name@, l)),
{
    env.push((name.clone(), l));
    assert(env_view(env@) =~= env_view(old(env)@).push((name@, l)));
}

/// Compiles an expression (see [`compiled_expr`]).
pub fn compile_expr<F: Fn(&String) -> u64 + Copy>(
    numeral: F,
    e: &Expr,
    env: &mut Vec<(String, Loc)>,
    ptr: i32,
    scope: Scope,
) -> (res: Option<(Vec<Op>, i32, i32)>)
    requires
        numeral_reader(numeral),
    ensures
        compiled_as(res, final(env)@, compiled_expr(numeral, *e, env_view(old(env)@), ptr as int, scope)),
    decreases e, 1int,
{
    match e {
        Expr::Literal { value, .. } => {
            let bits = numeral(value);
            proof {
                lemma_numeral_bits(numeral, value, bits);
            }
            let mut code: Vec<Op> = Vec::new();
            code.push(Op::PushF(bits));
            Some((code, ptr, 0))
        },
        Expr::Parenthesis { expr, .. } => compile_expr(numeral, expr, env, ptr, scope),
        Expr::Variable { identifier, .. } => match lookup_env(env, identifier) {
            None => None,
            Some(l) => {
                let mut code: Vec<Op> = Vec::new();
                code.push(load_op(l));
                Some((code, ptr, 0))
            },
        },
        Expr::Call { .. } => compile_call(numeral, e, env, ptr, scope),
        Expr::Binary { operator, .. } => {
            if *operator == Operator::Assign {
                compile_assign(numeral, e, env, ptr, scope)
            } else {
                compile_binary_expr(numeral, e, env, ptr, scope)
            }
        },
    }
}

fn compile_binary_expr<F: Fn(&String) -> u64 + Copy>(
    numeral: F,
    e: &Expr,
    env: &mut Vec<(String, Loc)>,
    ptr: i32,
    scope: Scope,
) -> (res: Option<(Vec<Op>, i32, i32)>)
    requires
        numeral_reader(numeral),
    ensures
        compiled_as(res, final(env)@, compiled_binary(numeral, *e, env_view(old(env)@), ptr as int, scope)),
    decreases e, 0int,
{
    match e {
        Expr::Binary { left_hand_side, right_hand_side, operator, .. } => {
            let (mut c1, p1, a1) = match compile_expr(numeral, left_hand_side, env, ptr, scope) {
                None => return None,
                Some(out) => out,
            };
            let (mut c2, p2, a2) = match compile_expr(numeral, right_hand_side, env, p1, scope) {
                None => return None,
                Some(out) => out,
            };
            let allocs = a1 as i64 + a2 as i64;
            if allocs < i32::MIN as i64 || allocs > i32::MAX as i64 {
                return None;
            }
            c1.append(&mut c2);
            c1.push(operator_op(*operator));
            Some((c1, p2, allocs as i32))
        },
        _ => None,
    }
}

fn compile_assign<F: Fn(&String) -> u64 + Copy>(
    numeral: F,
    e: &Expr,
    env: &mut Vec<(String, Loc)>,
    ptr: i32,
    scope: Scope,
) -> (res: Option<(Vec<Op>, i32, i32)>)
    requires
        numeral_reader(numeral),
    ensures
        compiled_as(res, final(env)@, compiled_assign(numeral, *e, env_view(old(env)@), ptr as int, scope)),
    decreases e, 0int,
{
    match e {
        Expr::Binary { left_hand_side, right_hand_side, .. } => {
            let (mut code, p, a) = match compile_expr(numeral, right_hand_side, env, ptr, scope) {
                None => return None,
                Some(out) => out,
            };
            match &**left_hand_side {
                Expr::Variable { identifier, .. } => match lookup_env(env, identifier) {
                    Some(l) => {
                        code.push(store_op(l));
                        Some((code, p, a))
                    },
                    None => {
                        if p == i32::MAX || a == i32::MAX {
                            return None;
                        }
                        let l = to_loc(scope, p);
                        bind(env, identifier, l);
                        code.push(store_op(l));
                        Some((code, p + 1, a + 1))
                    },
                },
                _ => None,
            }
        },
        _ => None,
    }
}

fn compile_call<F: Fn(&String) -> u64 + Copy>(
    numeral: F,
    e: &Expr,
    env: &mut Vec<(String, Loc)>,
    ptr: i32,
    scope: Scope,
) -> (res: Option<(Vec<Op>, i32, i32)>)
    requires
        numeral_reader(numeral),
    ensures
        compiled_as(res, final(env)@, compiled_call(numeral, *e, env_view(old(env)@), ptr as int, scope)),
    decreases e, 0int,
{
    match e {
        Expr::Call { function, args, index_from, index_to } => {
            let ghost start: Compiled = (Seq::empty(), ptr as int, 0, env_view(env@));
            let mut code: Vec<Op> = Vec::new();
            let mut p: i32 = ptr;
            let mut allocs: i32 = 0;
            let mut i = args.len();
            while i > 0
                invariant
                    numeral_reader(numeral),
                    i <= args@.len(),
                    *e == (Expr::Call {
                        function: *function,
                        args: *args,
                        index_from: *index_from,
                        index_to: *index_to,
                    }),
                    start == (Seq::<Op>::empty(), ptr as int, 0int, env_view(old(env)@)),
                    compiled_args(numeral, args@, args@.len() as int, start, scope) == compiled_args(
                        numeral,
                        args@,
                        i as int,
                        (code@, p as int, allocs as int, env_view(env@)),
                        scope,
                    ),
                decreases i,
            {
                proof {
                    assert(decreases_to!(*e => *args));
                    assert(decreases_to!(*args => args@));
                    assert(decreases_to!(args@ => args@[i - 1]));
                }
                let (mut c, q, a) = match compile_expr(numeral, &args[i - 1], env, p, scope) {
                    None => return None,
                    Some(out) => out,
                };
                let p2 = p as i64 + q as i64;
                let a2 = allocs as i64 + a as i64;
                if p2 < i32::MIN as i64 || p2 > i32::MAX as i64 || a2 < i32::MIN as i64 || a2 > i32::MAX as i64 {
                    return None;
                }
                code.append(&mut c);
                p = p2 as i32;
                allocs = a2 as i32;
                i -= 1;
            }
            let ghost acc: Compiled = (code@, p as int, allocs as int, env_view(env@));
            assert(compiled_args(numeral, args@, 0, acc, scope) == Some(acc));
            assert(compiled_args(numeral, args@, args@.len() as int, start, scope) == Some(acc));
            let sin = "sin".to_string();
            proof {
                reveal_strlit("sin");
                assert(sin@ == seq!['s', 'i', 'n']);
            }
            if *function == sin && args.len() == 1 {
                code.push(Op::Sin);
                return Some((code, p, allocs));
            }
            if args.len() > i32::MAX as usize {
                return None;
            }
            let len = args.len() as i32;
            code.push(Op::Call(function.clone()));
            code.push(Op::Ajs(-len));
            code.push(Op::LoadRR);
            Some((code, p, allocs))
        },
        _ => None,
    }
}

/// Compiles a statement (see [`compiled_stmt`]).
pub fn compile_stmt<F: Fn(&String) -> u64 + Copy>(
    numeral: F,
    s: &Stmt,
    env: &mut Vec<(String, Loc)>,
    ptr: i32,
    scope: Scope,
) -> (res: Option<(Vec<Op>, i32, i32)>)
    requires
        numeral_reader(numeral),
    ensures
        compiled_as(res, final(env)@, compiled_stmt(numeral, *s, env_view(old(env)@), ptr as int, scope)),
    decreases s, 1int,
{
    match s {
        Stmt::Block { .. } => compile_block(numeral, s, env, ptr, scope),
        Stmt::If { .. } => compile_if(numeral, s, env, ptr, scope),
        Stmt::Expression { expr, .. } => {
            let (mut code, p, a) = match compile_expr(numeral, expr, env, ptr, scope) {
                None => return None,
                Some(out) => out,
            };
            code.push(Op::Ajs(-1));
            Some((code, p, a))
        },
        Stmt::Move { argument, direction, .. } => {
            let (mut code, p, a) = match compile_expr(numeral, argument, env, ptr, scope) {
                None => return None,
                Some(out) => out,
            };
            code.push(move_op(direction));
            Some((code, p, a))
        },
    }
}

fn compile_block<F: Fn(&String) -> u64 + Copy>(
    numeral: F,
    s: &Stmt,
    env: &mut Vec<(String, Loc)>,
    ptr: i32,
    scope: Scope,
) -> (res: Option<(Vec<Op>, i32, i32)>)
    requires
        numeral_reader(numeral),
    ensures
        compiled_as(res, final(env)@, compiled_block(numeral, *s, env_view(old(env)@), ptr as int, scope)),
    decreases s, 0int,
{
    match s {
        Stmt::Block { body, index_from, index_to } => {
            let ghost start: Compiled = (Seq::empty(), ptr as int, ptr as int, env_view(env@));
            let mut inner = copy_env(env);
            let mut code: Vec<Op> = Vec::new();
            let mut inner_ptr: i32 = ptr;
            let mut allocs: i32 = ptr;
            let mut i: usize = 0;
            while i < body.len()
                invariant
                    numeral_reader(numeral),
                    i <= body@.len(),
                    *s == (Stmt::Block { body: *body, index_from: *index_from, index_to: *index_to }),
                    env@ == old(env)@,
                    start == (Seq::<Op>::empty(), ptr as int, ptr as int, env_view(old(env)@)),
                    compiled_seq(numeral, body@, 0, start, scope) == compiled_seq(
                        numeral,
                        body@,
                        i as int,
                        (code@, inner_ptr as int, allocs as int, env_view(inner@)),
                        scope,
                    ),
                decreases body@.len() - i,
            {
                proof {
                    assert(decreases_to!(*s => *body));
                    assert(decreases_to!(*body => body@));
                    assert(decreases_to!(body@ => body@[i as int]));
                }
                let (mut c, p, a) = match compile_stmt(numeral, &body[i], &mut inner, inner_ptr, scope) {
                    None => return None,
                    Some(out) => out,
                };
                code.append(&mut c);
                inner_ptr = p;
                allocs = if p >= a { p } else { a };
                i += 1;
            }
            let ghost acc: Compiled = (code@, inner_ptr as int, allocs as int, env_view(inner@));
            assert(compiled_seq(numeral, body@, i as int, acc, scope) == Some(acc));
            Some((code, ptr, allocs))
        },
        _ => None,
    }
}

fn compile_if<F: Fn(&String) -> u64 + Copy>(
    numeral: F,
    s: &Stmt,
    env: &mut Vec<(String, Loc)>,
    ptr: i32,
    scope: Scope,
) -> (res: Option<(Vec<Op>, i32, i32)>)
    requires
        numeral_reader(numeral),
    ensures
        compiled_as(res, final(env)@, compiled_if(numeral, *s, env_view(old(env)@), ptr as int, scope)),
    decreases s, 0int,
{
    match s {
        Stmt::If { condition, body, alternate, .. } => {
            let (mut code, p, a1) = match compile_expr(numeral, condition, env, ptr, scope) {
                None => return None,
                Some(out) => out,
            };
            let (mut cb, _, a2) = match compile_stmt(numeral, body, env, p, scope) {
                None => return None,
                Some(out) => out,
            };
            let a12 = a1 as i64 + a2 as i64;
            if a12 < i32::MIN as i64 || a12 > i32::MAX as i64 {
                return None;
            }
            match alternate {
                None => {
                    if cb.len() > i32::MAX as usize {
                        return None;
                    }
                    code.push(Op::Brf(cb.len() as i32));
                    code.append(&mut cb);
                    Some((code, p, a12 as i32))
                },
                Some(alt) => {
                    let (mut ca, _, a3) = match compile_stmt(numeral, alt, env, p, scope) {
                        None => return None,
                        Some(out) => out,
                    };
                    let a13 = a1 as i64 + a3 as i64;
                    if cb.len() >= i32::MAX as usize || ca.len() > i32::MAX as usize || a13 < i32::MIN as i64
                        || a13 > i32::MAX as i64 {
                        return None;
                    }
                    code.push(Op::Brf(1 + cb.len() as i32));
                    code.append(&mut cb);
                    code.push(Op::Bra(ca.len() as i32));
                    code.append(&mut ca);
                    let allocs = if a12 >= a13 { a12 } else { a13 };
                    Some((code, p, allocs as i32))
                },
            }
        },
        _ => None,
    }
}

/// Binds the parameters below the frame: the first at -3, the next at -4.
fn bind_params(env: &mut Vec<(String, Loc)>, params: &Vec<Param>)
    requires
        fits(-3 - params@.len()),
    ensures
        env_view(final(env)@) == env_view(old(env)@) + param_entries(params@),
{
    let mut i: usize = 0;
    let mut at: i32 = -3;
    while i < params.len()
        invariant
            i <= params@.len(),
            fits(-3 - params@.len()),
            i < params@.len() ==> at == -3 - i,
            env_view(env@) == env_view(old(env)@) + param_entries(params@).take(i as int),
        decreases params@.len() - i,
    {
        let ghost before = env_view(env@);
        bind(env, &params[i].name, Loc::Local(at));
        assert(param_entries(params@).take(i + 1) =~= param_entries(params@).take(i as int).push(
            param_entries(params@)[i as int],
        ));
        i += 1;
        if i < params.len() {
            at -= 1;
        }
    }
    assert(param_entries(params@).take(i as int) =~= param_entries(params@));
}

/// Compiles a top-level construct (see [`compiled_entry`]).
pub fn compile_entry<F: Fn(&String) -> u64 + Copy>(
    numeral: F,
    c: &Cons,
    env: &mut Vec<(String, Loc)>,
    ptr: i32,
) -> (res: Option<(Vec<Op>, i32, i32)>)
    requires
        numeral_reader(numeral),
    ensures
        compiled_as(res, final(env)@, compiled_entry(numeral, *c, env_view(old(env)@), ptr as int)),
{
    match c {
        Cons::Func { name, parameters, body, .. } => {
            if parameters.len() > (i32::MAX - 2) as usize {
                return None;
            }
            let mut inner = copy_env(env);
            bind_params(&mut inner, parameters);
            let (mut cb, _, allocs) = match compile_stmt(numeral, body, &mut inner, 0, Scope::Local) {
                None => return None,
                Some(out) => out,
            };
            let ghost compiled_body = cb@;
            let ends_in_return = cb.len() > 0 && match &cb[cb.len() - 1] {
                Op::Ret => true,
                _ => false,
            };
            if !ends_in_return {
                cb.push(Op::Ret);
            }
            assert(cb@ == with_return(compiled_body));
            if cb.len() > (i32::MAX - 2) as usize {
                return None;
            }
            let mut code: Vec<Op> = Vec::new();
            code.push(Op::Bra(cb.len() as i32 + 2));
            code.push(Op::Label(name.clone()));
            code.push(Op::Ajs(allocs));
            let ghost header = code@;
            let ghost ended = cb@;
            assert(header =~= seq![Op::Bra((ended.len() + 2) as i32), Op::Label(*name), Op::Ajs(allocs)]);
            code.append(&mut cb);
            assert(code@ =~= header + ended);
            Some((code, ptr, allocs))
        },
        Cons::Statement { stmt, .. } => compile_stmt(numeral, stmt, env, ptr, Scope::Global),
    }
}

/// Compiles a program: the allocation of its globals, then its constructs in
/// order. `numeral` gives the bits of the float a numeral stands for. The
/// result is `None` where a variable is read before it is bound, something
/// other than a variable is assigned, or the compiler's `i32` counters would
/// overflow.
pub fn compile<F: Fn(&String) -> u64 + Copy>(program: &Vec<Cons>, numeral: F) -> (ops: Option<Vec<Op>>)
    requires
        numeral_reader(numeral),
    ensures
        match compiled_program(numeral, program@) {
            None => ops is None,
            Some(code) => ops matches Some(v) && v@ == code,
        },
{
    let ghost start: Compiled = (Seq::empty(), 0, 0, Seq::empty());
    let mut body: Vec<Op> = Vec::new();
    let mut env: Vec<(String, Loc)> = Vec::new();
    let mut ptr: i32 = 0;
    let mut allocs: i32 = 0;
    let mut i: usize = 0;
    assert(env_view(env@) =~= Seq::<(Seq<char>, Loc)>::empty());
    while i < program.len()
        invariant
            numeral_reader(numeral),
            i <= program@.len(),
            start == (Seq::<Op>::empty(), 0int, 0int, Seq::<(Seq<char>, Loc)>::empty()),
            compiled_entries(numeral, program@, 0, start) == compiled_entries(
                numeral,
                program@,
                i as int,
                (body@, ptr as int, allocs as int, env_view(env@)),
            ),
        decreases program@.len() - i,
    {
        let (mut ops, p, a) = match compile_entry(numeral, &program[i], &mut env, ptr) {
            None => return None,
            Some(out) => out,
        };
        body.append(&mut ops);
        ptr = p;
        allocs = if p >= a { p } else { a };
        i += 1;
    }
    let ghost acc: Compiled = (body@, ptr as int, allocs as int, env_view(env@));
    assert(compiled_entries(numeral, program@, i as int, acc) == Some(acc));
    let mut code: Vec<Op> = Vec::new();
    code.push(Op::Ajs(allocs));
    code.append(&mut body);
    Some(code)
}

/// A binary expression other than an assignment compiles to the code of its
/// left operand, then the code of its right operand (compiled with the
/// variables and slot counter the left one leaves), then the operator's
/// instruction; it has no code when either operand has none.
pub proof fn law_binary_compiles_in_order<F: Fn(&String) -> u64>(
    f: F,
    lhs: Expr,
    rhs: Expr,
    operator: Operator,
    index_from: usize,
    index_to: usize,
    env: EnvView,
    ptr: int,
    scope: Scope,
)
    requires
        operator != Operator::Assign,
    ensures
        ({
            let e = Expr::Binary {
                left_hand_side: Box::new(lhs),
                right_hand_side: Box::new(rhs),
                operator,
                index_from,
                index_to,
            };
            match compiled_expr(f, lhs, env, ptr, scope) {
                None => compiled_expr(f, e, env, ptr, scope) is None,
                Some((c1, p1, a1, e1)) => match compiled_expr(f, rhs, e1, p1, scope) {
                    None => compiled_expr(f, e, env, ptr, scope) is None,
                    Some((c2, p2, a2, e2)) => fits(a1 + a2) ==> compiled_expr(f, e, env, ptr, scope) == Some(
                        (c1 + c2 + seq![spec_operator_op(operator)], p2, a1 + a2, e2),
                    ),
                },
            }
        }),
{
    let e = Expr::Binary {
        left_hand_side: Box::new(lhs),
        right_hand_side: Box::new(rhs),
        operator,
        index_from,
        index_to,
    };
    assert(compiled_expr(f, e, env, ptr, scope) == compiled_binary(f, e, env, ptr, scope));
    if let Some((c1, p1, a1, e1)) = compiled_expr(f, lhs, env, ptr, scope) {
        if let Some((c2, p2, a2, e2)) = compiled_expr(f, rhs, e1, p1, scope) {
            assert((c1 + c2).push(spec_operator_op(operator)) =~= c1 + c2 + seq![spec_operator_op(operator)]);
        }
    }
}

/// The instruction each binary operator other than assignment compiles to.
pub open spec fn operator_instruction(o: Operator) -> Option<Op> {
    match o {
        Operator::Add => Some(Op::Add),
        Operator::Subtract => Some(Op::Sub),
        Operator::Multiply => Some(Op::Mul),
        Operator::Divide => Some(Op::Div),
        Operator::GreaterThan => Some(Op::Gt),
        Operator::LessThan => Some(Op::Lt),
        Operator::GreaterEqualThan => Some(Op::Gte),
        Operator::LessEqualThan => Some(Op::Lte),
        Operator::Equal => Some(Op::Eq),
        Operator::NotEqual => Some(Op::Neq),
        Operator::Assign => None,
    }
}

/// Each binary operator compiles to its own instruction, after the code of
/// its operands: `lhs o rhs` is the code of `lhs`, the code of `rhs`, and then
/// `Add`, `Sub`, `Mul`, `Div`, `Gt`, `Lt`, `Gte`, `Lte`, `Eq` or `Neq` for `+`,
/// `-`, `*`, `/`, `>`, `<`, `>=`, `<=`, `==` or `!=`.
pub proof fn law_operator_instructions<F: Fn(&String) -> u64>(
    f: F,
    lhs: Expr,
    rhs: Expr,
    operator: Operator,
    index_from: usize,
    index_to: usize,
    env: EnvView,
    ptr: int,
    scope: Scope,
)
    requires
        operator != Operator::Assign,
    ensures
        ({
            let e = Expr::Binary {
                left_hand_side: Box::new(lhs),
                right_hand_side: Box::new(rhs),
                operator,
                index_from,
                index_to,
            };
            compiled_expr(f, e, env, ptr, scope) matches Some((code, _, _, _)) ==> {
                &&& compiled_expr(f, lhs, env, ptr, scope) matches Some((c1, p1, a1, e1))
                &&& compiled_expr(f, rhs, e1, p1, scope) matches Some((c2, p2, a2, e2))
                &&& code == c1 + c2 + seq![operator_instruction(operator).unwrap()]
            }
        }),
{
    law_binary_compiles_in_order(f, lhs, rhs, operator, index_from, index_to, env, ptr, scope);
    let e = Expr::Binary {
        left_hand_side: Box::new(lhs),
        right_hand_side: Box::new(rhs),
        operator,
        index_from,
        index_to,
    };
    assert(compiled_expr(f, e, env, ptr, scope) == compiled_binary(f, e, env, ptr, scope));
}

} // verus!
