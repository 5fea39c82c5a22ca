use lib::lang::ast::{Expr, Operator};
use lib::lang::grammar::expression::parse_expr;
use lib::lang::lex::{Lexer, Token};
use lib::lang::parse::ParseResult;
use lib::lang::run::{Deny, Run};

fn create_tokens<'a>(input: &'a str) -> Vec<Token<'a>> {
    let mut lexer = Lexer::new(input);
    lexer.collect()
}

/// The numeric value of a literal's numeral.
fn numeral_value(numeral: &str) -> f64 {
    numeral.parse().unwrap()
}

#[test]
fn test_parse_number_literal() {
    let tokens = create_tokens("42");
    let run = Run::new(&tokens);
    let deny = Deny::new();

    match parse_expr(run, &deny) {
        ParseResult::Success(expr, _) => {
            if let Expr::Literal { value, .. } = expr {
                assert_eq!(numeral_value(&value), 42.0);
            } else {
                panic!("Expected Literal expression");
            }
        }
        ParseResult::Error => panic!("Failed to parse number literal"),
    }
}

#[test]
fn test_parse_variable() {
    let tokens = create_tokens("x");
    let run = Run::new(&tokens);
    let deny = Deny::new();

    match parse_expr(run, &deny) {
        ParseResult::Success(expr, _) => {
            if let Expr::Variable { identifier, .. } = expr {
                assert_eq!(identifier, "x");
            } else {
                panic!("Expected Variable expression");
            }
        }
        ParseResult::Error => panic!("Failed to parse variable"),
    }
}

#[test]
fn test_parse_binary_operation() {
    let tokens = create_tokens("2 + 3");
    let run = Run::new(&tokens);
    let deny = Deny::new();

    match parse_expr(run, &deny) {
        ParseResult::Success(expr, _) => {
            if let Expr::Binary { operator, .. } = expr {
                assert_eq!(operator, Operator::Add);
            } else {
                panic!("Expected Binary expression");
            }
        }
        ParseResult::Error => panic!("Failed to parse binary operation"),
    }
}

#[test]
fn test_parse_parenthesized_expr() {
    let tokens = create_tokens("(42)");
    let run = Run::new(&tokens);
    let deny = Deny::new();

    match parse_expr(run, &deny) {
        ParseResult::Success(expr, _) => {
            if let Expr::Parenthesis { expr, .. } = expr {
                if let Expr::Literal { value, .. } = *expr {
                    assert_eq!(numeral_value(&value), 42.0);
                } else {
                    panic!("Expected Literal inside Parenthesis");
                }
            } else {
                panic!("Expected Parenthesis expression");
            }
        }
        ParseResult::Error => panic!("Failed to parse parenthesized expression"),
    }
}

#[test]
fn test_parse_function_call() {
    let tokens = create_tokens("foo(1, 2)");
    let run = Run::new(&tokens);
    let deny = Deny::new();

    match parse_expr(run, &deny) {
        ParseResult::Success(expr, _) => {
            if let Expr::Call { function, args, .. } = expr {
                assert_eq!(function, "foo");
                assert_eq!(args.len(), 2);
            } else {
                panic!("Expected Call expression");
            }
        }
        ParseResult::Error => panic!("Failed to parse function call"),
    }
}

#[test]
fn test_operator_precedence() {
    let tokens = create_tokens("2 + 3 * 4");
    let run = Run::new(&tokens);
    let deny = Deny::new();

    match parse_expr(run, &deny) {
        ParseResult::Success(expr, _) => {
            if let Expr::Binary {
                operator: op1,
                right_hand_side,
                ..
            } = expr
            {
                assert_eq!(op1, Operator::Add);

                if let Expr::Binary { operator: op2, .. } = *right_hand_side {
                    assert_eq!(op2, Operator::Multiply);
                } else {
                    panic!("Expected multiplication in right hand side");
                }
            } else {
                panic!("Expected Binary expression");
            }
        }
        ParseResult::Error => panic!("Failed to parse expression with operator precedence"),
    }
}

#[test]
fn test_assignment_expression() {
    let tokens = create_tokens("x = 42");
    let run = Run::new(&tokens);
    let deny = Deny::new();

    match parse_expr(run, &deny) {
        ParseResult::Success(expr, _) => {
            if let Expr::Binary { operator, .. } = expr {
                assert_eq!(operator, Operator::Assign);
            } else {
                panic!("Expected Binary expression for assignment");
            }
        }
        ParseResult::Error => panic!("Failed to parse assignment expression"),
    }
}

#[test]
fn test_parse_complex_expression() {
    let tokens = create_tokens("a = (b + 3) * 4 - foo(2, x)");
    let run = Run::new(&tokens);
    let deny = Deny::new();

    let expr = match parse_expr(run, &deny) {
        ParseResult::Success(expr, _) => expr,
        ParseResult::Error => panic!("Failed to parse expression"),
    };

    let target = Expr::Binary {
        left_hand_side: Box::new(Expr::Variable {
            identifier: "a".to_string(),
            index_from: 0,
            index_to: 1,
        }),
        right_hand_side: Box::new(Expr::Binary {
            left_hand_side: Box::new(Expr::Binary {
                left_hand_side: Box::new(Expr::Parenthesis {
                    expr: Box::new(Expr::Binary {
                        left_hand_side: Box::new(Expr::Variable {
                            identifier: "b".to_string(),
                            index_from: 5,
                            index_to: 6,
                        }),
                        right_hand_side: Box::new(Expr::Literal {
                            value: "3".to_string(),
                            index_from: 8,
                            index_to: 10,
                        }),
                        operator: Operator::Add,
                        index_from: 5,
                        index_to: 10,
                    }),
                    index_from: 3,
                    index_to: 11,
                }),
                right_hand_side: Box::new(Expr::Literal {
                    value: "4".to_string(),
                    index_from: 13,
                    index_to: 15,
                }),
                operator: Operator::Multiply,
                index_from: 3,
                index_to: 15,
            }),
            right_hand_side: Box::new(Expr::Call {
                function: "foo".to_string(),
                args: vec![
                    Expr::Literal {
                        value: "2".to_string(),
                        index_from: 20,
                        index_to: 21,
                    },
                    Expr::Variable {
                        identifier: "x".to_string(),
                        index_from: 22,
                        index_to: 24,
                    },
                ],
                index_from: 17,
                index_to: 25,
            }),
            operator: Operator::Subtract,
            index_from: 3,
            index_to: 25,
        }),
        operator: Operator::Assign,
        index_from: 0,
        index_to: 25,
    };

    assert_eq!(expr, target);
}
