use lib::lang::ast::{Cons, Expr, MoveDirection, Operator, Stmt};
use lib::lang::compile::compile;
use lib::lang::grammar::construct::parse_cons;
use lib::lang::grammar::statement::{parse_statements, parse_stmt, stmt_supported};
use lib::lang::lex::{Lexer, Token};
use lib::lang::parse::ParseResult;
use lib::lang::run::{Deny, Run};
use lib::machine::cpu::Op;

fn create_tokens<'a>(input: &'a str) -> Vec<Token<'a>> {
    let mut lexer = Lexer::new(input);
    lexer.collect()
}

fn numeral(s: &String) -> u64 {
    s.parse::<f64>().unwrap().to_bits()
}

fn bits(v: f64) -> u64 {
    v.to_bits()
}

fn statement(input: &str) -> Cons {
    let tokens = create_tokens(input);
    match parse_stmt(Run::new(&tokens), &Deny::new()) {
        ParseResult::Success(stmt, _) => Cons::Statement { stmt, index_from: 0, index_to: 0 },
        ParseResult::Error => panic!("expected a statement in {:?}", input),
    }
}

fn var(name: &str) -> Box<Expr> {
    Box::new(Expr::Variable { identifier: name.to_string(), index_from: 0, index_to: 0 })
}

fn num(text: &str) -> Expr {
    Expr::Literal { value: text.to_string(), index_from: 0, index_to: 0 }
}

#[test]
fn assignment_allocates_a_global() {
    let program = vec![statement("x = 1 + 2;")];
    let code = compile(&program, numeral).unwrap();
    assert_eq!(
        code,
        vec![
            Op::Ajs(1),
            Op::PushF(bits(1.0)),
            Op::PushF(bits(2.0)),
            Op::Add,
            Op::StoreG(0),
            Op::Ajs(-1),
        ]
    );
}

#[test]
fn binary_operands_come_before_the_operator() {
    let program = vec![statement("x = 4; y = x * 2 - 1;")];
    let code = compile(&program, numeral).unwrap();
    assert_eq!(
        code,
        vec![Op::Ajs(1), Op::PushF(bits(4.0)), Op::StoreG(0), Op::Ajs(-1)]
    );
    let program = vec![statement("x = 4;"), statement("y = x * 2 - 1;")];
    let code = compile(&program, numeral).unwrap();
    assert_eq!(
        code,
        vec![
            Op::Ajs(2),
            Op::PushF(bits(4.0)),
            Op::StoreG(0),
            Op::Ajs(-1),
            Op::LoadG(0),
            Op::PushF(bits(2.0)),
            Op::Mul,
            Op::PushF(bits(1.0)),
            Op::Sub,
            Op::StoreG(1),
            Op::Ajs(-1),
        ]
    );
}

#[test]
fn reading_an_unbound_variable_has_no_code() {
    assert_eq!(compile(&vec![statement("y + 1;")], numeral), None);
}

#[test]
fn assigning_to_a_non_variable_has_no_code() {
    assert_eq!(compile(&vec![statement("1 = 2;")], numeral), None);
}

#[test]
fn calls_push_arguments_last_first() {
    let code = compile(&vec![statement("f(1, 2);")], numeral).unwrap();
    assert_eq!(
        code,
        vec![
            Op::Ajs(0),
            Op::PushF(bits(2.0)),
            Op::PushF(bits(1.0)),
            Op::Call("f".to_string()),
            Op::Ajs(-2),
            Op::LoadRR,
            Op::Ajs(-1),
        ]
    );
    let code = compile(&vec![statement("sin(30);")], numeral).unwrap();
    assert_eq!(code, vec![Op::Ajs(0), Op::PushF(bits(30.0)), Op::Sin, Op::Ajs(-1)]);
}

#[test]
fn functions_jump_over_their_body() {
    let tokens = create_tokens("func f(a, b) { }");
    let func = match parse_cons(Run::new(&tokens), &Deny::new()) {
        ParseResult::Success(cons, _) => cons,
        ParseResult::Error => panic!("expected a function"),
    };
    let code = compile(&vec![func], numeral).unwrap();
    assert_eq!(
        code,
        vec![Op::Ajs(0), Op::Bra(3), Op::Label("f".to_string()), Op::Ajs(0), Op::Ret]
    );

    let func = Cons::Func {
        name: "g".to_string(),
        parameters: vec![
            lib::lang::ast::Param { name: "a".to_string(), index_from: 0, index_to: 0 },
            lib::lang::ast::Param { name: "b".to_string(), index_from: 0, index_to: 0 },
        ],
        body: Stmt::Block {
            body: vec![Stmt::Expression {
                expr: Expr::Binary {
                    left_hand_side: var("c"),
                    right_hand_side: Box::new(Expr::Binary {
                        left_hand_side: var("a"),
                        right_hand_side: var("b"),
                        operator: Operator::Add,
                        index_from: 0,
                        index_to: 0,
                    }),
                    operator: Operator::Assign,
                    index_from: 0,
                    index_to: 0,
                },
                index_from: 0,
                index_to: 0,
            }],
            index_from: 0,
            index_to: 0,
        },
        index_from: 0,
        index_to: 0,
    };
    let code = compile(&vec![func], numeral).unwrap();
    assert_eq!(
        code,
        vec![
            Op::Ajs(1),
            Op::Bra(8),
            Op::Label("g".to_string()),
            Op::Ajs(1),
            Op::LoadL(-3),
            Op::LoadL(-4),
            Op::Add,
            Op::StoreL(0),
            Op::Ajs(-1),
            Op::Ret,
        ]
    );
}

#[test]
fn branches_skip_their_code() {
    let program = vec![
        statement("x = 1;"),
        Cons::Statement {
            stmt: Stmt::If {
                condition: Expr::Variable { identifier: "x".to_string(), index_from: 0, index_to: 0 },
                body: Box::new(Stmt::Move {
                    argument: num("10"),
                    direction: MoveDirection::MoveForward,
                    index_from: 0,
                    index_to: 0,
                }),
                alternate: Some(Box::new(Stmt::Move {
                    argument: num("90"),
                    direction: MoveDirection::TurnLeft,
                    index_from: 0,
                    index_to: 0,
                })),
                index_from: 0,
                index_to: 0,
            },
            index_from: 0,
            index_to: 0,
        },
    ];
    let code = compile(&program, numeral).unwrap();
    assert_eq!(
        code,
        vec![
            Op::Ajs(1),
            Op::PushF(bits(1.0)),
            Op::StoreG(0),
            Op::Ajs(-1),
            Op::LoadG(0),
            Op::Brf(3),
            Op::PushF(bits(10.0)),
            Op::Movf,
            Op::Bra(2),
            Op::PushF(bits(90.0)),
            Op::Movl,
        ]
    );
}

#[test]
fn block_bindings_do_not_leave_the_block() {
    let program = vec![statement("{ x = 1; }"), statement("x;")];
    assert_eq!(compile(&program, numeral), None);
}

#[test]
fn unsupported_statements_are_reported() {
    let tokens = create_tokens("while (x) { }");
    assert!(!stmt_supported(Run::new(&tokens), &Deny::new()));
    let tokens = create_tokens("{ x = 1; forward(3); }");
    assert!(!stmt_supported(Run::new(&tokens), &Deny::new()));
    let tokens = create_tokens("{ x = 1; }");
    assert!(stmt_supported(Run::new(&tokens), &Deny::new()));
    let tokens = create_tokens(";");
    assert!(stmt_supported(Run::new(&tokens), &Deny::new()));
}

#[test]
fn statements_are_read_until_one_does_not_parse() {
    use_parse_statements();
}

fn use_parse_statements() {
    let tokens = create_tokens("x = 1; y = x + 2; ) z = 3;");
    match parse_statements(Run::new(&tokens), &Deny::new()) {
        Some(ParseResult::Success(stmts, _)) => assert_eq!(stmts.len(), 3),
        _ => panic!("expected statements"),
    }
    let tokens = create_tokens("x = 1; forward(3);");
    assert!(parse_statements(Run::new(&tokens), &Deny::new()).is_none());
}
