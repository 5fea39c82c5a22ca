use lib::lang::ast::{Cons, Expr, Stmt};
use lib::lang::grammar::construct::parse_cons;
use lib::lang::grammar::expression::parse_expr;
use lib::lang::grammar::statement::parse_stmt;
use lib::lang::lex::{Lexer, Symbol, Token};
use lib::lang::parse::ParseResult;
use lib::lang::run::{Contains, Deny, ReadResult, Run};

fn create_tokens<'a>(input: &'a str) -> Vec<Token<'a>> {
    let mut lexer = Lexer::new(input);
    lexer.collect()
}

fn source_of(symbol: &Symbol) -> String {
    match symbol {
        Symbol::Comment(text) => format!("//{}", text),
        Symbol::LineBreak => "\n".to_string(),
        Symbol::Whitespace(text) | Symbol::Identifier(text) | Symbol::Number(text) | Symbol::Undefined(text) => {
            text.to_string()
        }
        Symbol::Eof => String::new(),
        other => lib::wasm::highlight::token_to_string(*other),
    }
}

#[test]
fn lexing_loses_nothing() {
    let input = "func f(a, b) {\n  forward(a * 2); // go\n  x = @ 1.5 >= y;\n}";
    let tokens = create_tokens(input);
    let mut rebuilt = String::new();
    let mut at = 0;
    for token in &tokens[..tokens.len() - 1] {
        assert_eq!(token.index_from, at);
        assert!(token.index_from < token.index_to);
        assert_eq!(&input[token.index_from..token.index_to], source_of(&token.symbol));
        rebuilt.push_str(&input[token.index_from..token.index_to]);
        at = token.index_to;
    }
    assert_eq!(rebuilt, input);
    let last = tokens.last().unwrap();
    assert_eq!(last.symbol, Symbol::Eof);
    assert_eq!(last.index_from, input.len());
}

#[test]
fn symbol_length_is_its_span() {
    let input = "abc 12.5 <= // note\n";
    for token in create_tokens(input) {
        match token.symbol {
            Symbol::Comment(_) => assert_eq!(token.index_to - token.index_from, token.symbol.len() + 2),
            Symbol::Eof => {}
            _ => assert_eq!(token.index_to - token.index_from, token.symbol.len()),
        }
    }
}

#[test]
fn deny_insert_adds_one_symbol() {
    let empty = Deny::new();
    let semicolon = Symbol::SemiColon;
    let paren = Symbol::RightParen;
    let comma = Symbol::Comma;
    assert!(!empty.contains(&semicolon));
    let one = empty.insert(Symbol::SemiColon);
    assert!(one.contains(&semicolon));
    assert!(!one.contains(&paren));
    let two = one.insert(Symbol::RightParen);
    assert!(two.contains(&paren));
    assert!(two.contains(&semicolon));
    assert!(!two.contains(&comma));
    assert!(!one.contains(&paren));
}

#[test]
fn expression_spans_from_its_start() {
    let tokens = create_tokens("  a + b * c ;");
    let run = Run::new(&tokens);
    match parse_expr(run, &Deny::new()) {
        ParseResult::Success(expr, next) => {
            assert_eq!(expr.index_from(), 0);
            assert_eq!(expr.index_to(), 10);
            assert!(expr.index_to() <= next.position());
            assert_eq!(next.position(), 10);
            assert_eq!(next.dist(), 0);
            match expr {
                Expr::Binary { right_hand_side, .. } => {
                    assert_eq!(right_hand_side.index_from(), 4);
                    assert_eq!(right_hand_side.index_to(), 10);
                }
                _ => panic!("expected a binary expression"),
            }
        }
        ParseResult::Error => panic!("expected a parse"),
    }
}

#[test]
fn skipped_tokens_add_to_the_distance() {
    let tokens = create_tokens("; ; 7");
    let run = Run::new(&tokens);
    match parse_expr(run, &Deny::new()) {
        ParseResult::Success(expr, next) => {
            assert_eq!(expr.index_from(), 0);
            assert_eq!(expr.index_to(), 5);
            assert_eq!(next.dist(), 2);
        }
        ParseResult::Error => panic!("expected a parse"),
    }
}

#[test]
fn statement_spans_from_its_start() {
    let tokens = create_tokens(" x = 1; y");
    let run = Run::new(&tokens);
    match parse_stmt(run, &Deny::new()) {
        ParseResult::Success(stmt, next) => match stmt {
            Stmt::Expression { index_from, index_to, .. } => {
                assert_eq!(index_from, 0);
                assert_eq!(index_to, 7);
                assert_eq!(next.position(), 7);
            }
            _ => panic!("expected an expression statement"),
        },
        ParseResult::Error => panic!("expected a parse"),
    }
}

#[test]
fn function_header_is_parsed() {
    let tokens = create_tokens("func square(a, b) { }");
    let run = Run::new(&tokens);
    match parse_cons(run, &Deny::new()) {
        ParseResult::Success(cons, next) => {
            match cons {
                Cons::Func { name, parameters, index_from, index_to, .. } => {
                    assert_eq!(name, "square");
                    let names: Vec<&str> = parameters.iter().map(|p| p.name.as_str()).collect();
                    assert_eq!(names, vec!["a", "b"]);
                    assert_eq!(parameters[0].index_from, 4);
                    assert_eq!(parameters[0].index_to, 5);
                    assert_eq!(parameters[1].index_from, 6);
                    assert_eq!(parameters[1].index_to, 8);
                    assert_eq!(index_from, 0);
                    assert_eq!(index_to, 0);
                }
                _ => panic!("expected a function"),
            }
            assert_eq!(next.position(), 9);
        }
        ParseResult::Error => panic!("expected a function header"),
    }
}

#[test]
fn function_header_without_parameters_fails() {
    let tokens = create_tokens("func square { }");
    let run = Run::new(&tokens);
    assert!(parse_cons(run, &Deny::new()).is_err());
}

fn shape(expr: &Expr) -> String {
    match expr {
        Expr::Variable { identifier, .. } => identifier.clone(),
        Expr::Literal { value, .. } => value.clone(),
        Expr::Binary { left_hand_side, right_hand_side, operator, .. } => {
            format!("({} {:?} {})", shape(left_hand_side), operator, shape(right_hand_side))
        }
        Expr::Parenthesis { expr, .. } => format!("[{}]", shape(expr)),
        Expr::Call { function, args, .. } => {
            let args: Vec<String> = args.iter().map(shape).collect();
            format!("{}({})", function, args.join(", "))
        }
    }
}

fn parse_shape(input: &str) -> String {
    let tokens = create_tokens(input);
    match parse_expr(Run::new(&tokens), &Deny::new()) {
        ParseResult::Success(expr, _) => shape(&expr),
        ParseResult::Error => panic!("expected a parse of {:?}", input),
    }
}

#[test]
fn precedence_and_grouping() {
    assert_eq!(parse_shape("a-b-c"), "((a Subtract b) Subtract c)");
    assert_eq!(parse_shape("a=b=c"), "(a Assign (b Assign c))");
    assert_eq!(parse_shape("a*b+c"), "((a Multiply b) Add c)");
    assert_eq!(parse_shape("a+b*c"), "(a Add (b Multiply c))");
    assert_eq!(parse_shape("a < b == c"), "((a LessThan b) Equal c)");
    assert_eq!(parse_shape("a=b+c"), "(a Assign (b Add c))");
    assert_eq!(parse_shape("a/b*c"), "((a Divide b) Multiply c)");
}

#[test]
fn precedence_spans() {
    let tokens = create_tokens("a-b*c");
    match parse_expr(Run::new(&tokens), &Deny::new()) {
        ParseResult::Success(Expr::Binary { left_hand_side, right_hand_side, index_from, index_to, .. }, next) => {
            assert_eq!((index_from, index_to), (0, 5));
            assert_eq!((left_hand_side.index_from(), left_hand_side.index_to()), (0, 1));
            assert_eq!((right_hand_side.index_from(), right_hand_side.index_to()), (2, 5));
            assert_eq!(next.position(), 5);
            assert_eq!(next.dist(), 0);
        }
        _ => panic!("expected a binary expression"),
    }
}

#[test]
fn consume_gives_the_next_symbol() {
    let tokens = create_tokens("a b");
    match Run::new(&tokens).consume() {
        ReadResult::Found(symbol, reading) => {
            assert_eq!(*symbol, Symbol::Identifier("a"));
            assert_eq!(reading.index_from(), 0);
            assert_eq!(reading.index_to(), 1);
            match reading.cont().consume() {
                ReadResult::Found(symbol, second) => {
                    assert_eq!(*symbol, Symbol::Whitespace(" "));
                    assert_eq!(second.index_from(), 1);
                    assert_eq!(second.init().len(), 0);
                }
                ReadResult::NotFound(_) => panic!("expected a second token"),
            }
        }
        ReadResult::NotFound(_) => panic!("expected a token"),
    }
}

#[test]
fn init_holds_the_skipped_tokens_of_the_reading() {
    let tokens = create_tokens("a b c d");
    let after_a = match Run::new(&tokens).consume() {
        ReadResult::Found(_, reading) => reading.cont(),
        ReadResult::NotFound(_) => panic!("expected a token"),
    };
    let target = Symbol::Identifier("d");
    match after_a.read_where_true(|s: &Symbol| *s == target, Deny::new()) {
        ReadResult::Found(_, reading) => {
            let init = reading.init();
            assert_eq!(init.len(), 5);
            assert_eq!(init[0].symbol, Symbol::Whitespace(" "));
            assert_eq!(init[1].symbol, Symbol::Identifier("b"));
            assert_eq!(init[3].symbol, Symbol::Identifier("c"));
        }
        ReadResult::NotFound(_) => panic!("expected d"),
    }
}
