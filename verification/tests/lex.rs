use lib::lang::lex::{Lexer, Symbol};

#[test]
fn test_identifier_and_number() {
    let mut lexer = Lexer::new("foo 123");
    let tokens = lexer.collect();
    // Expect: Identifier("foo"), Whitespace(" "), Number("123"), Eof
    assert_eq!(tokens.len(), 4);
    assert_eq!(tokens[0].identifier(), Some("foo"));
    assert_eq!(tokens[2].number(), Some("123"));

    // indices: "foo" starts at 0..3, whitespace 3..4, number 4..7
    assert_eq!(tokens[0].index_from, 0);
    assert_eq!(tokens[0].index_to, 3);
    assert_eq!(tokens[1].index_from, 3);
    assert_eq!(tokens[1].index_to, 4);
    assert_eq!(tokens[2].index_from, 4);
    assert_eq!(tokens[2].index_to, 7);
}

#[test]
fn test_whitespace_tokens() {
    let mut lexer = Lexer::new("a \n// comment\n42");
    let tokens = lexer.collect();

    assert_eq!(tokens[0].symbol, Symbol::Identifier("a"));
    assert_eq!(tokens[5].symbol, Symbol::Number("42"));

    assert!(tokens[1].is_whitespace()); // the space
    assert!(tokens[2].is_whitespace()); // the newline
    assert!(tokens[3].is_whitespace()); // the comment
    assert!(tokens[4].is_whitespace()); // the newline
    assert!(!tokens[0].is_whitespace()); // identifier "a"
    assert!(!tokens[5].is_whitespace()); // number "42"
}

#[test]
fn test_operators_and_punctuators() {
    let input = "== != >= <= = ! > < ; + - * / ( ) { } ,";

    let mut lexer = Lexer::new(input);
    let tokens = lexer.collect();
    let symbols: Vec<Symbol> = tokens
        .iter()
        .filter(|token| !token.is_whitespace())
        .map(|t| t.symbol)
        .collect();

    let expected = vec![
        Symbol::Equals,
        Symbol::NotEqual,
        Symbol::GreaterEqualThan,
        Symbol::LessEqualThan,
        Symbol::Assign,
        Symbol::Bang,
        Symbol::GreaterThan,
        Symbol::LessThan,
        Symbol::SemiColon,
        Symbol::Plus,
        Symbol::Minus,
        Symbol::Multiply,
        Symbol::Divide,
        Symbol::LeftParen,
        Symbol::RightParen,
        Symbol::LeftBrace,
        Symbol::RightBrace,
        Symbol::Comma,
    ];

    assert_eq!(symbols.len(), expected.len());
    for (got, exp) in symbols.iter().zip(expected.iter()) {
        assert_eq!(got, exp);
    }
}

#[test]
fn test_undefined_and_linebreak() {
    let mut lexer = Lexer::new("@\n");
    let tokens = lexer.collect();

    assert_eq!(tokens.len(), 3);
    assert_eq!(tokens[0].symbol, Symbol::Undefined("@"));
    assert_eq!(tokens[1].symbol, Symbol::LineBreak);
    assert_eq!(tokens[2].symbol, Symbol::Eof);
}
