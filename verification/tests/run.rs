use lib::lang::lex::{Lexer, Symbol, Token};
use lib::lang::run::{Deny, ReadResult, Run};

fn create_tokens<'a>(input: &'a str) -> Vec<Token<'a>> {
    let mut lexer = Lexer::new(input);
    lexer.collect()
}

#[test]
fn test_run_new() {
    let tokens = create_tokens("");
    let run = Run::new(&tokens);

    assert_eq!(run.dist, 0);
    assert_eq!(run.position, 0);
    assert_eq!(run.remaining_input_len(), 1);

    assert_eq!(run.tokens.get(0).unwrap().symbol, Symbol::Eof);
}

#[test]
fn test_run_consume_next1() {
    let tokens = &[];
    let run = Run::new(tokens);

    match run.consume() {
        ReadResult::Found(_, _) => panic!("Expected None, got Some"),
        ReadResult::NotFound(_) => (),
    }
}

#[test]
fn test_run_consume_next2() {
    let tokens = create_tokens("first second");
    let run = Run::new(&tokens);

    match run.consume() {
        ReadResult::Found(_, reading) => {
            assert_eq!(reading.dist, 0);
            assert_eq!(reading.index_from, 0);
            assert_eq!(reading.index_to, 1);
            assert_eq!(reading.init().len(), 0);
            assert_eq!(reading.symbol(), &Symbol::Identifier("first"));
            assert_eq!(reading.last().index_from, 0);
            assert_eq!(reading.last().index_to, 5);
        }
        ReadResult::NotFound(_) => panic!("Expected Some, got None"),
    }
}

#[test]
fn test_run_read_until_true1() {
    let tokens = create_tokens("target other");
    let run = Run::new(&tokens);
    let deny = Deny::new();

    let (_, reading) = match run.read_where_true(|&s| s == Symbol::Identifier("target"), deny) {
        ReadResult::Found(token, reading) => (token, reading),
        ReadResult::NotFound(_) => panic!("Expected Some, got None"),
    };

    assert_eq!(reading.symbol(), &Symbol::Identifier("target"));
    assert_eq!(reading.dist, 0);
    assert_eq!(reading.index_from, 0);
    assert_eq!(reading.index_to, 1);
    assert_eq!(reading.init().len(), 0);

    let reading = match reading.cont().consume() {
        ReadResult::Found(_, reading) => reading,
        ReadResult::NotFound(_) => panic!("Expected Some, got None"),
    };

    assert_eq!(reading.dist, 0);
    assert_eq!(reading.index_from, 1);
    assert_eq!(reading.index_to, 2);
    assert_eq!(reading.symbol(), &Symbol::Whitespace(" "));
    assert_eq!(reading.last().index_from, 6);
    assert_eq!(reading.last().index_to, 7);

    let reading = match reading.cont().consume() {
        ReadResult::Found(_, reading) => reading,
        ReadResult::NotFound(_) => panic!("Expected Some, got None"),
    };

    assert_eq!(reading.dist, 0);
    assert_eq!(reading.index_from, 2);
    assert_eq!(reading.index_to, 3);
    assert_eq!(reading.symbol(), &Symbol::Identifier("other"));
    assert_eq!(reading.last().index_from, 7);
    assert_eq!(reading.last().index_to, 12);
}

#[test]
fn test_run_read_until_true2() {
    let tokens = create_tokens("first target last");
    let run = Run::new(&tokens);
    let deny = Deny::new();

    let reading = match run.read_where_true(|s| s == &Symbol::Identifier("target"), deny) {
        ReadResult::Found(_, reading) => reading,
        ReadResult::NotFound(_) => panic!("Expected Some, got None"),
    };

    assert_eq!(reading.symbol(), &Symbol::Identifier("target"));

    assert_eq!(reading.dist, 1);
    assert_eq!(reading.index_from, 0);
    assert_eq!(reading.index_to, 3);

    let init = reading.init();
    assert_eq!(init.len(), 2);
    assert_eq!(init.get(0).unwrap().symbol, Symbol::Identifier("first"));
    assert_eq!(init.get(1).unwrap().symbol, Symbol::Whitespace(" "));

    let reading = match reading.cont().consume() {
        ReadResult::Found(_, reading) => reading,
        ReadResult::NotFound(_) => panic!("Expected Some, got None"),
    };

    assert_eq!(reading.dist, 0);
    assert_eq!(reading.index_from, 3);
    assert_eq!(reading.index_to, 4);
    assert_eq!(reading.symbol(), &Symbol::Whitespace(" "));

    let reading = match reading.cont().consume() {
        ReadResult::Found(_, reading) => reading,
        ReadResult::NotFound(_) => panic!("Expected Some, got None"),
    };

    assert_eq!(reading.dist, 0);
    assert_eq!(reading.index_from, 4);
    assert_eq!(reading.index_to, 5);
    assert_eq!(reading.symbol(), &Symbol::Identifier("last"));
}

#[test]
fn test_run_read_until_true3() {
    let tokens = create_tokens("first second target");
    let run = Run::new(&tokens);
    let deny = Deny::new().insert(Symbol::Identifier("second"));

    assert_eq!(run.dist, 0);
    assert_eq!(run.position, 0);
    assert_eq!(run.tokens.len(), 6);

    let run = match run.read_where_true(|s| s == &Symbol::Identifier("target"), deny) {
        ReadResult::Found(_, _) => panic!("Expected None, got Some"),
        ReadResult::NotFound(run) => run,
    };

    assert_eq!(run.dist, 0);
    assert_eq!(run.position, 0);
    assert_eq!(run.tokens.len(), 6);
}

#[test]
fn test_run_read_until_true4() {
    let tokens = create_tokens("first second target");
    let run = Run::new(&tokens);
    let deny = Deny::new().insert(Symbol::Identifier("target"));

    assert_eq!(run.dist, 0);
    assert_eq!(run.position, 0);
    assert_eq!(run.tokens.len(), 6);

    let reading = match run.read_where_true(|s| s == &Symbol::Identifier("target"), deny) {
        ReadResult::Found(_, reading) => reading,
        ReadResult::NotFound(_) => panic!("Expected Some, got None"),
    };

    assert_eq!(reading.symbol(), &Symbol::Identifier("target"));
    assert_eq!(reading.last().index_from, 13);
    assert_eq!(reading.last().index_to, 19);
    assert_eq!(reading.index_from, 0);
    assert_eq!(reading.index_to, 5);
}

#[test]
fn test_run_until_some1() {
    let tokens = create_tokens("first second");
    let run = Run::new(&tokens);
    let deny = Deny::new();
    let pred = |s: &Symbol| match &s {
        Symbol::Identifier(name) if *name == "second" => Some(42),
        _ => None,
    };

    let (value, reading) = match run.read_where_some(pred, deny) {
        ReadResult::Found(value, reading) => (value, reading),
        ReadResult::NotFound(_) => panic!("Expected Some, got None"),
    };

    assert_eq!(value, 42);
    assert_eq!(reading.symbol(), &Symbol::Identifier("second"));
    assert_eq!(reading.dist, 1);
    assert_eq!(reading.index_from, 0);
    assert_eq!(reading.index_to, 3);

    let init = reading.init();
    assert_eq!(init.len(), 2);
    assert_eq!(init.get(0).unwrap().symbol, Symbol::Identifier("first"));
    assert_eq!(init.get(1).unwrap().symbol, Symbol::Whitespace(" "));

    let run = reading.cont();
    assert_eq!(run.remaining_input_len(), 1);
}
