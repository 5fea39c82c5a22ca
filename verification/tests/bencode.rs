use lib::lang::lex::Symbol;
use lib::wasm::benchode_highlight;
use lib::wasm::highlight::{token_to_string, Fragment, Highlight};

fn fragment(value: &str, kind: u8, hint: u8) -> Fragment {
    Fragment { value: value.to_string(), hint, kind }
}

#[test]
fn empty_highlight_is_two_empty_lists() {
    let mut out = Vec::new();
    benchode_highlight(&mut out, Highlight { lines: Vec::new(), hints: Vec::new() });
    assert_eq!(out, b"llelee".to_vec());
}

#[test]
fn fragments_carry_kind_and_hint_before_their_text() {
    let mut out = b"x".to_vec();
    let highlight = Highlight {
        lines: vec![vec![fragment("ab", 1, 0), fragment("", 20, 3)], vec![]],
        hints: vec!["hint".to_string()],
    };
    benchode_highlight(&mut out, highlight);
    let mut expected = b"xll".to_vec();
    expected.extend_from_slice(b"l4:");
    expected.extend_from_slice(&[1, 0]);
    expected.extend_from_slice(b"ab2:");
    expected.extend_from_slice(&[20, 3]);
    expected.extend_from_slice(b"e");
    expected.extend_from_slice(b"le");
    expected.extend_from_slice(b"el4:hintee");
    assert_eq!(out, expected);
}

#[test]
fn lengths_are_written_in_decimal() {
    let mut out = Vec::new();
    let long = "abcdefghijklmnopqrstuvwxyz0123456789abcdefghijklmnopqrstuvwxyz0123456789abcdefghijklmnopqrstuvwxyz";
    assert_eq!(long.len(), 98);
    let highlight = Highlight { lines: vec![vec![fragment(long, 2, 0)]], hints: vec![long.to_string()] };
    benchode_highlight(&mut out, highlight);
    let mut expected = b"lll100:".to_vec();
    expected.extend_from_slice(&[2, 0]);
    expected.extend_from_slice(long.as_bytes());
    expected.extend_from_slice(b"eel98:");
    expected.extend_from_slice(long.as_bytes());
    expected.extend_from_slice(b"ee");
    assert_eq!(out, expected);
}

#[test]
fn multibyte_text_is_counted_in_bytes() {
    let mut out = Vec::new();
    let highlight = Highlight { lines: Vec::new(), hints: vec!["é".to_string()] };
    benchode_highlight(&mut out, highlight);
    let mut expected = b"llel2:".to_vec();
    expected.extend_from_slice("é".as_bytes());
    expected.extend_from_slice(b"ee");
    assert_eq!(out, expected);
}

#[test]
fn symbols_are_written_as_source_text() {
    assert_eq!(token_to_string(Symbol::LessEqualThan), "<=");
    assert_eq!(token_to_string(Symbol::NotEqual), "!=");
    assert_eq!(token_to_string(Symbol::Func), "func");
    assert_eq!(token_to_string(Symbol::Identifier("turtle")), "turtle");
    assert_eq!(token_to_string(Symbol::Number("4.5")), "4.5");
    assert_eq!(token_to_string(Symbol::Undefined("@")), "@");
    assert_eq!(token_to_string(Symbol::Eof), "");
    assert_eq!(token_to_string(Symbol::True), "true");
}
