use lib::lang::ast::{Expr, Stmt};
use lib::lang::grammar::statement::parse_stmt;
use lib::lang::lex::{Lexer, Token};
use lib::lang::parse::ParseResult;
use lib::lang::run::{Deny, Run};

fn create_tokens<'a>(input: &'a str) -> Vec<Token<'a>> {
    let mut lexer = Lexer::new(input);
    lexer.collect()
}

#[test]
fn test_parse_block_stmt() {
    let tokens = create_tokens("{}");
    let run = Run::new(&tokens);
    let deny = Deny::new();

    match parse_stmt(run, &deny) {
        ParseResult::Success(stmt, _) => {
            if let Stmt::Block { body, .. } = stmt {
                assert_eq!(body.len(), 0);
            } else {
                panic!("Expected block statement");
            }
        }
        ParseResult::Error => panic!("Failed to parse empty block"),
    }
}

#[test]
fn test_parse_expr_stmt() {
    let tokens = create_tokens("42;");
    let run = Run::new(&tokens);
    let deny = Deny::new();

    match parse_stmt(run, &deny) {
        ParseResult::Success(stmt, _) => {
            if let Stmt::Expression { expr, .. } = stmt {
                if let Expr::Literal { value, .. } = expr {
                    assert_eq!(value.parse::<f64>().unwrap(), 42.0);
                } else {
                    panic!("Expected number expression");
                }
            } else {
                panic!("Expected expression statement");
            }
        }
        ParseResult::Error => panic!("Failed to parse expression statement"),
    }
}

#[test]
fn test_parse_stmt_error() {
    // Test missing semicolon
    let tokens = create_tokens("42");
    let run = Run::new(&tokens);
    let deny = Deny::new();

    match parse_stmt(run, &deny) {
        ParseResult::Error => (),
        _ => panic!("Expected error for missing semicolon"),
    }
}
