use vstd::prelude::*;
use vstd::std_specs::cmp::PartialEqSpecImpl;
use vstd::string::StringSliceAdditionalSpecFns;
use vstd::utf8::*;

verus! {

broadcast use encode_utf8_valid_utf8;

/// The `Symbol` type: the lexical class of a token, carrying the source text
/// for the classes whose text varies.
#[derive(Hash, Clone, Copy, Debug)]
pub enum Symbol<'a> {
    // util
    Undefined(&'a str),
    Eof,

    // variable
    Identifier(&'a str),
    Number(&'a str),

    // const
    True,
    False,

    // operators
    Plus,
    Minus,
    Multiply,
    Divide,
    Assign,
    Bang,
    Equals,
    NotEqual,
    GreaterThan,
    GreaterEqualThan,
    LessThan,
    LessEqualThan,

    // program structure
    LeftParen,
    RightParen,
    Comma,
    SemiColon,
    LeftBrace,
    RightBrace,

    // reserved words
    If,
    Else,
    While,
    Return,
    Break,
    Forward,
    Left,
    Right,
    Func,

    // layout
    Whitespace(&'a str),
    Comment(&'a str),
    LineBreak,
}

/// The mathematical model of a [`Symbol`]: the same classes, with the UTF-8
/// bytes of the carried text.
pub ghost enum SymbolView {
    // util
    Undefined(Seq<u8>),
    Eof,

    // variable
    Identifier(Seq<u8>),
    Number(Seq<u8>),

    // const
    True,
    False,

    // operators
    Plus,
    Minus,
    Multiply,
    Divide,
    Assign,
    Bang,
    Equals,
    NotEqual,
    GreaterThan,
    GreaterEqualThan,
    LessThan,
    LessEqualThan,

    // program structure
    LeftParen,
    RightParen,
    Comma,
    SemiColon,
    LeftBrace,
    RightBrace,

    // reserved words
    If,
    Else,
    While,
    Return,
    Break,
    Forward,
    Left,
    Right,
    Func,

    // layout
    Whitespace(Seq<u8>),
    Comment(Seq<u8>),
    LineBreak,
}

impl<'a> View for Symbol<'a> {
    type V = SymbolView;

    open spec fn view(&self) -> SymbolView {
        match *self {
            Symbol::Undefined(s) => SymbolView::Undefined(s.spec_bytes()),
            Symbol::Eof => SymbolView::Eof,
            Symbol::Identifier(s) => SymbolView::Identifier(s.spec_bytes()),
            Symbol::Number(s) => SymbolView::Number(s.spec_bytes()),
            Symbol::True => SymbolView::True,
            Symbol::False => SymbolView::False,
            Symbol::Plus => SymbolView::Plus,
            Symbol::Minus => SymbolView::Minus,
            Symbol::Multiply => SymbolView::Multiply,
            Symbol::Divide => SymbolView::Divide,
            Symbol::Assign => SymbolView::Assign,
            Symbol::Bang => SymbolView::Bang,
            Symbol::Equals => SymbolView::Equals,
            Symbol::NotEqual => SymbolView::NotEqual,
            Symbol::GreaterThan => SymbolView::GreaterThan,
            Symbol::GreaterEqualThan => SymbolView::GreaterEqualThan,
            Symbol::LessThan => SymbolView::LessThan,
            Symbol::LessEqualThan => SymbolView::LessEqualThan,
            Symbol::LeftParen => SymbolView::LeftParen,
            Symbol::RightParen => SymbolView::RightParen,
            Symbol::Comma => SymbolView::Comma,
            Symbol::SemiColon => SymbolView::SemiColon,
            Symbol::LeftBrace => SymbolView::LeftBrace,
            Symbol::RightBrace => SymbolView::RightBrace,
            Symbol::If => SymbolView::If,
            Symbol::Else => SymbolView::Else,
            Symbol::While => SymbolView::While,
            Symbol::Return => SymbolView::Return,
            Symbol::Break => SymbolView::Break,
            Symbol::Forward => SymbolView::Forward,
            Symbol::Left => SymbolView::Left,
            Symbol::Right => SymbolView::Right,
            Symbol::Func => SymbolView::Func,
            Symbol::Whitespace(s) => SymbolView::Whitespace(s.spec_bytes()),
            Symbol::Comment(s) => SymbolView::Comment(s.spec_bytes()),
            Symbol::LineBreak => SymbolView::LineBreak,
        }
    }
}

impl SymbolView {
    /// The parse distance a symbol adds when it is skipped: layout costs nothing.
    pub open spec fn dist(self) -> nat {
        match self {
            SymbolView::Whitespace(_) => 0,
            SymbolView::Comment(_) => 0,
            SymbolView::LineBreak => 0,
            _ => 1,
        }
    }

    /// The length in bytes of the symbol's text.
    pub open spec fn len(self) -> nat {
        match self {
            SymbolView::Undefined(s) => s.len(),
            SymbolView::Eof => 0,
            SymbolView::Identifier(s) => s.len(),
            SymbolView::Number(s) => s.len(),
            SymbolView::True => 4,
            SymbolView::False => 5,
            SymbolView::Plus => 1,
            SymbolView::Minus => 1,
            SymbolView::Multiply => 1,
            SymbolView::Divide => 1,
            SymbolView::Assign => 1,
            SymbolView::Bang => 1,
            SymbolView::Equals => 2,
            SymbolView::NotEqual => 2,
            SymbolView::GreaterThan => 1,
            SymbolView::GreaterEqualThan => 2,
            SymbolView::LessThan => 1,
            SymbolView::LessEqualThan => 2,
            SymbolView::LeftParen => 1,
            SymbolView::RightParen => 1,
            SymbolView::Comma => 1,
            SymbolView::SemiColon => 1,
            SymbolView::LeftBrace => 1,
            SymbolView::RightBrace => 1,
            SymbolView::If => 2,
            SymbolView::Else => 4,
            SymbolView::While => 5,
            SymbolView::Return => 6,
            SymbolView::Break => 5,
            SymbolView::Forward => 7,
            SymbolView::Left => 4,
            SymbolView::Right => 5,
            SymbolView::Func => 4,
            SymbolView::Whitespace(s) => s.len(),
            SymbolView::Comment(s) => s.len(),
            SymbolView::LineBreak => 1,
        }
    }

    /// Layout and the end of input.
    pub open spec fn is_layout(self) -> bool {
        ||| self is Whitespace
        ||| self is Comment
        ||| self is LineBreak
        ||| self is Eof
    }
}

/// The length in bytes of a string slice.
fn text_len(s: &str) -> (n: usize)
    ensures
        n == s.spec_bytes().len(),
{
    s.as_bytes().len()
}

/// Compares the UTF-8 bytes of two string slices.
fn str_bytes_eq(a: &str, b: &str) -> (equal: bool)
    ensures
        equal == (a.spec_bytes() == b.spec_bytes()),
{
    let x = a.as_bytes();
    let y = b.as_bytes();
    if x.len() != y.len() {
        return false;
    }
    let mut i: usize = 0;
    while i < x.len()
        invariant
            x@ == a.spec_bytes(),
            y@ == b.spec_bytes(),
            x@.len() == y@.len(),
            i <= x@.len(),
            forall|j: int| 0 <= j < i ==> x@[j] == y@[j],
        decreases x@.len() - i,
    {
        if x[i] != y[i] {
            return false;
        }
        i = i + 1;
    }
    assert(x@ =~= y@);
    true
}

fn symbols_equal<'a, 'b>(x: &Symbol<'a>, y: &Symbol<'b>) -> (equal: bool)
    ensures
        equal == (x@ == y@),
{
    match (x, y) {
        (Symbol::Undefined(a), Symbol::Undefined(b)) => str_bytes_eq(a, b),
        (Symbol::Eof, Symbol::Eof) => true,
        (Symbol::Identifier(a), Symbol::Identifier(b)) => str_bytes_eq(a, b),
        (Symbol::Number(a), Symbol::Number(b)) => str_bytes_eq(a, b),
        (Symbol::True, Symbol::True) => true,
        (Symbol::False, Symbol::False) => true,
        (Symbol::Plus, Symbol::Plus) => true,
        (Symbol::Minus, Symbol::Minus) => true,
        (Symbol::Multiply, Symbol::Multiply) => true,
        (Symbol::Divide, Symbol::Divide) => true,
        (Symbol::Assign, Symbol::Assign) => true,
        (Symbol::Bang, Symbol::Bang) => true,
        (Symbol::Equals, Symbol::Equals) => true,
        (Symbol::NotEqual, Symbol::NotEqual) => true,
        (Symbol::GreaterThan, Symbol::GreaterThan) => true,
        (Symbol::GreaterEqualThan, Symbol::GreaterEqualThan) => true,
        (Symbol::LessThan, Symbol::LessThan) => true,
        (Symbol::LessEqualThan, Symbol::LessEqualThan) => true,
        (Symbol::LeftParen, Symbol::LeftParen) => true,
        (Symbol::RightParen, Symbol::RightParen) => true,
        (Symbol::Comma, Symbol::Comma) => true,
        (Symbol::SemiColon, Symbol::SemiColon) => true,
        (Symbol::LeftBrace, Symbol::LeftBrace) => true,
        (Symbol::RightBrace, Symbol::RightBrace) => true,
        (Symbol::If, Symbol::If) => true,
        (Symbol::Else, Symbol::Else) => true,
        (Symbol::While, Symbol::While) => true,
        (Symbol::Return, Symbol::Return) => true,
        (Symbol::Break, Symbol::Break) => true,
        (Symbol::Forward, Symbol::Forward) => true,
        (Symbol::Left, Symbol::Left) => true,
        (Symbol::Right, Symbol::Right) => true,
        (Symbol::Func, Symbol::Func) => true,
        (Symbol::Whitespace(a), Symbol::Whitespace(b)) => str_bytes_eq(a, b),
        (Symbol::Comment(a), Symbol::Comment(b)) => str_bytes_eq(a, b),
        (Symbol::LineBreak, Symbol::LineBreak) => true,
        _ => false,
    }
}

impl<'a> PartialEq for Symbol<'a> {
    fn eq(&self, other: &Self) -> (equal: bool) {
        symbols_equal(self, other)
    }
}

impl<'a> PartialEqSpecImpl for Symbol<'a> {
    open spec fn obeys_eq_spec() -> bool {
        true
    }

    open spec fn eq_spec(&self, other: &Self) -> bool {
        self@ == other@
    }
}

impl<'a> Eq for Symbol<'a> {

}

impl<'a> Symbol<'a> {
    /// The text of an identifier symbol.
    pub fn identifier(&self) -> (id: Option<&'a str>)
        ensures
            id is Some <==> self@ is Identifier,
            id matches Some(s) ==> self@ == SymbolView::Identifier(s.spec_bytes()),
    {
        match self {
            Symbol::Identifier(id) => Some(id),
            _ => None,
        }
    }

    /// The text of a number symbol.
    pub fn number(&self) -> (num: Option<&'a str>)
        ensures
            num is Some <==> self@ is Number,
            num matches Some(s) ==> self@ == SymbolView::Number(s.spec_bytes()),
    {
        match self {
            Symbol::Number(num) => Some(num),
            _ => None,
        }
    }

    /// The distance a reader is penalised for skipping this symbol.
    pub fn dist(&self) -> (d: usize)
        ensures
            d == self@.dist(),
    {
        match self {
            Symbol::Whitespace(_) => 0,
            Symbol::Comment(_) => 0,
            Symbol::LineBreak => 0,
            _ => 1,
        }
    }

    /// The length in bytes of the symbol's text.
    pub fn len(&self) -> (n: usize)
        ensures
            n == self@.len(),
    {
        match self {
            Symbol::Undefined(s) => text_len(s),
            Symbol::Eof => 0,
            Symbol::Identifier(s) => text_len(s),
            Symbol::Number(s) => text_len(s),
            Symbol::True => 4,
            Symbol::False => 5,
            Symbol::Plus => 1,
            Symbol::Minus => 1,
            Symbol::Multiply => 1,
            Symbol::Divide => 1,
            Symbol::Assign => 1,
            Symbol::Bang => 1,
            Symbol::Equals => 2,
            Symbol::NotEqual => 2,
            Symbol::GreaterThan => 1,
            Symbol::GreaterEqualThan => 2,
            Symbol::LessThan => 1,
            Symbol::LessEqualThan => 2,
            Symbol::LeftParen => 1,
            Symbol::RightParen => 1,
            Symbol::Comma => 1,
            Symbol::SemiColon => 1,
            Symbol::LeftBrace => 1,
            Symbol::RightBrace => 1,
            Symbol::If => 2,
            Symbol::Else => 4,
            Symbol::While => 5,
            Symbol::Return => 6,
            Symbol::Break => 5,
            Symbol::Forward => 7,
            Symbol::Left => 4,
            Symbol::Right => 5,
            Symbol::Func => 4,
            Symbol::Whitespace(s) => text_len(s),
            Symbol::Comment(s) => text_len(s),
            Symbol::LineBreak => 1,
        }
    }
}

/// A position in the input.
#[derive(Debug, Clone, Copy)]
pub struct Loc {
    pub line: usize,
    pub col: usize,
    pub byte: usize,
    pub char: usize,
}

/// A symbol together with the byte range of the input that it was read from.
#[derive(Debug, Clone, Copy, PartialEq, Eq)]
pub struct Token<'a> {
    pub symbol: Symbol<'a>,
    pub index_from: usize,
    pub index_to: usize,
}

/// The mathematical model of a [`Token`].
pub ghost struct TokenView {
    pub symbol: SymbolView,
    pub index_from: int,
    pub index_to: int,
}

impl<'a> View for Token<'a> {
    type V = TokenView;

    open spec fn view(&self) -> TokenView {
        TokenView {
            symbol: self.symbol@,
            index_from: self.index_from as int,
            index_to: self.index_to as int,
        }
    }
}

/// The models of a sequence of tokens.
pub open spec fn tokens_view<'a>(tokens: Seq<Token<'a>>) -> Seq<TokenView> {
    tokens.map_values(|t: Token<'a>| t@)
}

impl<'a> Token<'a> {
    /// The text of an identifier token.
    pub fn identifier(&self) -> (id: Option<&'a str>)
        ensures
            id is Some <==> self.symbol@ is Identifier,
            id matches Some(s) ==> self.symbol@ == SymbolView::Identifier(s.spec_bytes()),
    {
        match self.symbol {
            Symbol::Identifier(id) => Some(id),
            _ => None,
        }
    }

    /// The text of a number token.
    pub fn number(&self) -> (num: Option<&'a str>)
        ensures
            num is Some <==> self.symbol@ is Number,
            num matches Some(s) ==> self.symbol@ == SymbolView::Number(s.spec_bytes()),
    {
        match self.symbol {
            Symbol::Number(num) => Some(num),
            _ => None,
        }
    }

    /// The distance a reader is penalised for skipping this token.
    pub fn dist(&self) -> (d: usize)
        ensures
            d == self.symbol@.dist(),
    {
        self.symbol.dist()
    }

    /// True for layout (whitespace, comments, line breaks) and the end of input.
    pub fn is_whitespace(&self) -> (ws: bool)
        ensures
            ws == self.symbol@.is_layout(),
    {
        match self.symbol {
            Symbol::Whitespace(_) => true,
            Symbol::Comment(_) => true,
            Symbol::LineBreak => true,
            Symbol::Eof => true,
            _ => false,
        }
    }
}

/* The lexical grammar, over the UTF-8 bytes of the input. */

/// The byte at `i`, or 0 past either end.
pub open spec fn byte_at(b: Seq<u8>, i: int) -> u8 {
    if 0 <= i < b.len() {
        b[i]
    } else {
        0
    }
}

/// Number of bytes that the lexer steps over for a character whose encoding
/// starts with the byte `c`.
pub open spec fn char_width(c: u8) -> int {
    if c >= 0xF0 {
        4
    } else if c >= 0xE0 {
        3
    } else if c >= 0xC0 {
        2
    } else {
        1
    }
}

/// The encodings (by their first three bytes) that the lexer reads as whitespace.
pub open spec fn is_whitespace_bytes(p: u8, q: u8, r: u8) -> bool {
    ||| p == 0x09 || p == 0x0B || p == 0x0C || p == 0x0D || p == 0x20
    ||| p == 0xC2 && (q == 0x85 || q == 0xA0)
    ||| p == 0xE1 && ((q == 0x9A && r == 0x80) || (q == 0xA0 && r == 0x8E))
    ||| p == 0xE2 && q == 0x80 && ((0x80 <= r && r <= 0x8A) || r == 0xA8 || r == 0xA9 || r
        == 0xAF)
    ||| p == 0xE2 && q == 0x81 && r == 0x9F
    ||| p == 0xE3 && q == 0x80 && r == 0x80
}

pub open spec fn is_whitespace_at(b: Seq<u8>, i: int) -> bool {
    is_whitespace_bytes(byte_at(b, i), byte_at(b, i + 1), byte_at(b, i + 2))
}

/// Bytes that end an identifier.
pub open spec fn is_forbidden_identifier_byte(c: u8) -> bool {
    c == 44u8 || c == 46u8 || c == 59u8 || c == 40u8 || c == 41u8 || c == 45u8 || c == 43u8 || c
        == 47u8 || c == 42u8 || c == 94u8 || c == 61u8
}

pub open spec fn is_identifier_start(c: u8) -> bool {
    (97u8 <= c && c <= 122u8) || (65u8 <= c && c <= 90u8) || c == 95u8
}

pub open spec fn is_digit(c: u8) -> bool {
    48u8 <= c && c <= 57u8
}

/// End of the longest run of whitespace characters starting at `i`.
pub open spec fn scan_whitespace(b: Seq<u8>, i: int) -> int
    decreases b.len() + 4 - i,
{
    if 0 <= i < b.len() && is_whitespace_at(b, i) {
        scan_whitespace(b, i + char_width(b[i]))
    } else {
        i
    }
}

/// End of the identifier starting at `i`: it runs until the end of input, a
/// whitespace character, a line break or a forbidden byte.
pub open spec fn scan_identifier(b: Seq<u8>, i: int) -> int
    decreases b.len() + 4 - i,
{
    if 0 <= i < b.len() && !is_whitespace_at(b, i) && b[i] != 10u8
        && !is_forbidden_identifier_byte(b[i]) {
        scan_identifier(b, i + char_width(b[i]))
    } else {
        i
    }
}

/// End of a comment body starting at `i`: the end of the line or of the input.
pub open spec fn scan_comment(b: Seq<u8>, i: int) -> int
    decreases b.len() + 4 - i,
{
    if 0 <= i < b.len() && b[i] != 10u8 {
        scan_comment(b, i + char_width(b[i]))
    } else {
        i
    }
}

/// End of the run of ASCII digits starting at `i`.
pub open spec fn scan_digits(b: Seq<u8>, i: int) -> int
    decreases b.len() - i,
{
    if 0 <= i < b.len() && is_digit(b[i]) {
        scan_digits(b, i + 1)
    } else {
        i
    }
}

/// End of a numeral starting at `i`: digits, an optional point, digits.
pub open spec fn scan_number(b: Seq<u8>, i: int) -> int {
    let a = scan_digits(b, i);
    let c = if 0 <= a < b.len() && b[a] == 46u8 {
        a + 1
    } else {
        a
    };
    scan_digits(b, c)
}

/// The symbol for a word: a reserved word, or else an identifier.
pub open spec fn word_view(s: Seq<u8>) -> SymbolView {
    if s == seq![102u8, 117u8, 110u8, 99u8] {
        SymbolView::Func
    } else if s == seq![105u8, 102u8] {
        SymbolView::If
    } else if s == seq![101u8, 108u8, 115u8, 101u8] {
        SymbolView::Else
    } else if s == seq![119u8, 104u8, 105u8, 108u8, 101u8] {
        SymbolView::While
    } else if s == seq![114u8, 101u8, 116u8, 117u8, 114u8, 110u8] {
        SymbolView::Return
    } else if s == seq![98u8, 114u8, 101u8, 97u8, 107u8] {
        SymbolView::Break
    } else if s == seq![102u8, 111u8, 114u8, 119u8, 97u8, 114u8, 100u8] {
        SymbolView::Forward
    } else if s == seq![108u8, 101u8, 102u8, 116u8] {
        SymbolView::Left
    } else if s == seq![114u8, 105u8, 103u8, 104u8, 116u8] {
        SymbolView::Right
    } else if s == seq![116u8, 114u8, 117u8, 101u8] {
        SymbolView::True
    } else if s == seq![102u8, 97u8, 108u8, 115u8, 101u8] {
        SymbolView::False
    } else {
        SymbolView::Identifier(s)
    }
}

/// The symbol that starts at byte `i` (which is inside the input), and the
/// byte where it ends.
pub open spec fn lex_symbol(b: Seq<u8>, i: int) -> (SymbolView, int) {
    let c = b[i];
    if c == 59u8 {
        (SymbolView::SemiColon, i + 1)
    } else if c == 43u8 {
        (SymbolView::Plus, i + 1)
    } else if c == 45u8 {
        (SymbolView::Minus, i + 1)
    } else if c == 42u8 {
        (SymbolView::Multiply, i + 1)
    } else if c == 47u8 {
        if byte_at(b, i + 1) == 47u8 {
            let e = scan_comment(b, i + 2);
            (SymbolView::Comment(b.subrange(i + 2, e)), e)
        } else {
            (SymbolView::Divide, i + 1)
        }
    } else if c == 61u8 {
        if byte_at(b, i + 1) == 61u8 {
            (SymbolView::Equals, i + 2)
        } else {
            (SymbolView::Assign, i + 1)
        }
    } else if c == 33u8 {
        if byte_at(b, i + 1) == 61u8 {
            (SymbolView::NotEqual, i + 2)
        } else {
            (SymbolView::Bang, i + 1)
        }
    } else if c == 62u8 {
        if byte_at(b, i + 1) == 61u8 {
            (SymbolView::GreaterEqualThan, i + 2)
        } else {
            (SymbolView::GreaterThan, i + 1)
        }
    } else if c == 60u8 {
        if byte_at(b, i + 1) == 61u8 {
            (SymbolView::LessEqualThan, i + 2)
        } else {
            (SymbolView::LessThan, i + 1)
        }
    } else if c == 40u8 {
        (SymbolView::LeftParen, i + 1)
    } else if c == 41u8 {
        (SymbolView::RightParen, i + 1)
    } else if c == 123u8 {
        (SymbolView::LeftBrace, i + 1)
    } else if c == 125u8 {
        (SymbolView::RightBrace, i + 1)
    } else if c == 44u8 {
        (SymbolView::Comma, i + 1)
    } else if is_identifier_start(c) {
        let e = scan_identifier(b, i);
        (word_view(b.subrange(i, e)), e)
    } else if is_digit(c) {
        let e = scan_number(b, i);
        (SymbolView::Number(b.subrange(i, e)), e)
    } else if c == 10u8 {
        (SymbolView::LineBreak, i + 1)
    } else if is_whitespace_at(b, i) {
        let e = scan_whitespace(b, i);
        (SymbolView::Whitespace(b.subrange(i, e)), e)
    } else {
        let e = i + char_width(c);
        (SymbolView::Undefined(b.subrange(i, e)), e)
    }
}

/// The token that the lexer reads at byte `i`: past the end of the input this
/// is the end-of-input token, whose end is recorded as 0.
pub open spec fn token_at(b: Seq<u8>, i: int) -> TokenView {
    if 0 <= i < b.len() {
        TokenView { symbol: lex_symbol(b, i).0, index_from: i, index_to: lex_symbol(b, i).1 }
    } else {
        TokenView { symbol: SymbolView::Eof, index_from: i, index_to: 0 }
    }
}

/// Where the lexer stands after reading the token at `i`.
pub open spec fn offset_after(b: Seq<u8>, i: int) -> int {
    if 0 <= i < b.len() {
        lex_symbol(b, i).1
    } else {
        i
    }
}

proof fn lemma_scan_whitespace_bounds(b: Seq<u8>, i: int)
    requires
        0 <= i,
    ensures
        i <= scan_whitespace(b, i),
        scan_whitespace(b, i) <= i || scan_whitespace(b, i) <= b.len() + 3,
    decreases b.len() + 4 - i,
{
    if 0 <= i < b.len() && is_whitespace_at(b, i) {
        lemma_scan_whitespace_bounds(b, i + char_width(b[i]));
    }
}

proof fn lemma_scan_identifier_bounds(b: Seq<u8>, i: int)
    requires
        0 <= i,
    ensures
        i <= scan_identifier(b, i),
        scan_identifier(b, i) <= i || scan_identifier(b, i) <= b.len() + 3,
    decreases b.len() + 4 - i,
{
    if 0 <= i < b.len() && !is_whitespace_at(b, i) && b[i] != 10u8
        && !is_forbidden_identifier_byte(b[i]) {
        lemma_scan_identifier_bounds(b, i + char_width(b[i]));
    }
}

proof fn lemma_scan_comment_bounds(b: Seq<u8>, i: int)
    requires
        0 <= i,
    ensures
        i <= scan_comment(b, i),
        scan_comment(b, i) <= i || scan_comment(b, i) <= b.len() + 3,
    decreases b.len() + 4 - i,
{
    if 0 <= i < b.len() && b[i] != 10u8 {
        lemma_scan_comment_bounds(b, i + char_width(b[i]));
    }
}

proof fn lemma_scan_digits_bounds(b: Seq<u8>, i: int)
    requires
        0 <= i,
    ensures
        i <= scan_digits(b, i),
        scan_digits(b, i) <= i || scan_digits(b, i) <= b.len(),
    decreases b.len() - i,
{
    if 0 <= i < b.len() && is_digit(b[i]) {
        lemma_scan_digits_bounds(b, i + 1);
    }
}

/// Every symbol read inside the input is nonempty.
pub proof fn lemma_lex_symbol_progress(b: Seq<u8>, i: int)
    requires
        0 <= i < b.len(),
    ensures
        i < lex_symbol(b, i).1 <= b.len() + 3,
        !(lex_symbol(b, i).0 is Eof),
{
    let c = b[i];
    lemma_scan_comment_bounds(b, i + 2);
    lemma_scan_identifier_bounds(b, i);
    lemma_scan_whitespace_bounds(b, i);
    lemma_scan_digits_bounds(b, i);
    let a = scan_digits(b, i);
    lemma_scan_digits_bounds(b, a);
    lemma_scan_digits_bounds(b, a + 1);
    if is_identifier_start(c) {
        assert(!is_whitespace_at(b, i));
        assert(scan_identifier(b, i) == scan_identifier(b, i + char_width(c)));
        lemma_scan_identifier_bounds(b, i + char_width(c));
    }
    if is_whitespace_at(b, i) {
        assert(scan_whitespace(b, i) == scan_whitespace(b, i + char_width(c)));
        lemma_scan_whitespace_bounds(b, i + char_width(c));
    }
}

/// The tokens that the lexer reads from byte `i` on, ending with the
/// end-of-input token.
pub open spec fn lex_tokens(b: Seq<u8>, i: int) -> Seq<TokenView>
    decreases b.len() + 4 - i,
{
    if 0 <= i < b.len() {
        proof {
            lemma_lex_symbol_progress(b, i);
        }
        seq![token_at(b, i)] + lex_tokens(b, lex_symbol(b, i).1)
    } else {
        seq![token_at(b, i)]
    }
}

/// In valid UTF-8, stepping from a character boundary over the width given by
/// its leading byte lands on the next character boundary.
proof fn lemma_boundary_step(bytes: Seq<u8>, i: int)
    requires
        valid_utf8(bytes),
        is_char_boundary(bytes, i),
        0 <= i < bytes.len(),
    ensures
        i + char_width(bytes[i]) <= bytes.len(),
        is_char_boundary(bytes, i + char_width(bytes[i])),
    decreases bytes.len(),
{
    let k = length_of_first_scalar(bytes);
    let rest = pop_first_scalar(bytes);
    assert(valid_first_scalar(bytes) && valid_utf8(rest));
    assert(rest.len() == bytes.len() - k);
    if i == 0 {
        assert(char_width(bytes[0]) == k);
        assert(is_char_boundary(rest, 0));
    } else {
        assert(is_char_boundary(rest, i - k));
        assert(rest[i - k] == bytes[i]);
        lemma_boundary_step(rest, i - k);
    }
}

/// The part of `s` between the character boundaries `from` and `to`.
fn str_slice<'a>(s: &'a str, from: usize, to: usize) -> (res: &'a str)
    requires
        valid_utf8(s.spec_bytes()),
        from <= to,
        is_char_boundary(s.spec_bytes(), from as int),
        is_char_boundary(s.spec_bytes(), to as int),
    ensures
        res.spec_bytes() == s.spec_bytes().subrange(from as int, to as int),
{
    let ghost b = s.spec_bytes();
    let (head, _) = s.split_at(to);
    proof {
        valid_utf8_split(b, to as int);
        assert(head.spec_bytes() =~= b.subrange(0, to as int));
        if from < to {
            is_char_boundary_iff_not_is_continuation_byte(b, from as int);
            is_char_boundary_iff_not_is_continuation_byte(head.spec_bytes(), from as int);
        } else {
            is_char_boundary_start_end_of_seq(head.spec_bytes());
        }
    }
    let (_, piece) = head.split_at(from);
    proof {
        assert(piece.spec_bytes() =~= b.subrange(from as int, to as int));
    }
    piece
}

/// The symbol for a word: a reserved word, or else an identifier.
fn word_symbol<'a>(word: &'a str) -> (sym: Symbol<'a>)
    ensures
        sym@ == word_view(word.spec_bytes()),
{
    let w = word.as_bytes();
    let n = w.len();
    if n == 4 && w[0] == 102u8 && w[1] == 117u8 && w[2] == 110u8 && w[3] == 99u8 {
        assert(w@ =~= seq![102u8, 117u8, 110u8, 99u8]);
        Symbol::Func
    } else if n == 2 && w[0] == 105u8 && w[1] == 102u8 {
        assert(w@ =~= seq![105u8, 102u8]);
        Symbol::If
    } else if n == 4 && w[0] == 101u8 && w[1] == 108u8 && w[2] == 115u8 && w[3] == 101u8 {
        assert(w@ =~= seq![101u8, 108u8, 115u8, 101u8]);
        Symbol::Else
    } else if n == 5 && w[0] == 119u8 && w[1] == 104u8 && w[2] == 105u8 && w[3] == 108u8 && w[4]
        == 101u8 {
        assert(w@ =~= seq![119u8, 104u8, 105u8, 108u8, 101u8]);
        Symbol::While
    } else if n == 6 && w[0] == 114u8 && w[1] == 101u8 && w[2] == 116u8 && w[3] == 117u8 && w[4]
        == 114u8 && w[5] == 110u8 {
        assert(w@ =~= seq![114u8, 101u8, 116u8, 117u8, 114u8, 110u8]);
        Symbol::Return
    } else if n == 5 && w[0] == 98u8 && w[1] == 114u8 && w[2] == 101u8 && w[3] == 97u8 && w[4]
        == 107u8 {
        assert(w@ =~= seq![98u8, 114u8, 101u8, 97u8, 107u8]);
        Symbol::Break
    } else if n == 7 && w[0] == 102u8 && w[1] == 111u8 && w[2] == 114u8 && w[3] == 119u8 && w[4]
        == 97u8 && w[5] == 114u8 && w[6] == 100u8 {
        assert(w@ =~= seq![102u8, 111u8, 114u8, 119u8, 97u8, 114u8, 100u8]);
        Symbol::Forward
    } else if n == 4 && w[0] == 108u8 && w[1] == 101u8 && w[2] == 102u8 && w[3] == 116u8 {
        assert(w@ =~= seq![108u8, 101u8, 102u8, 116u8]);
        Symbol::Left
    } else if n == 5 && w[0] == 114u8 && w[1] == 105u8 && w[2] == 103u8 && w[3] == 104u8 && w[4]
        == 116u8 {
        assert(w@ =~= seq![114u8, 105u8, 103u8, 104u8, 116u8]);
        Symbol::Right
    } else if n == 4 && w[0] == 116u8 && w[1] == 114u8 && w[2] == 117u8 && w[3] == 101u8 {
        assert(w@ =~= seq![116u8, 114u8, 117u8, 101u8]);
        Symbol::True
    } else if n == 5 && w[0] == 102u8 && w[1] == 97u8 && w[2] == 108u8 && w[3] == 115u8 && w[4]
        == 101u8 {
        assert(w@ =~= seq![102u8, 97u8, 108u8, 115u8, 101u8]);
        Symbol::False
    } else {
        Symbol::Identifier(word)
    }
}

/// Reads the input string into tokens.
#[derive(Debug)]
pub struct Lexer<'a> {
    input: &'a str,
    current_char: Option<u8>,
    pos: Loc,
}

impl<'a> Lexer<'a> {
    /// The UTF-8 bytes of the input.
    pub closed spec fn source(&self) -> Seq<u8> {
        self.input.spec_bytes()
    }

    /// The byte offset at which the next token starts.
    pub closed spec fn offset(&self) -> int {
        self.pos.byte as int
    }

    /// The lexer stands on a character boundary of its input, and the current
    /// byte and the position counters agree with that offset.
    pub closed spec fn wf(&self) -> bool {
        let b = self.input.spec_bytes();
        &&& valid_utf8(b)
        &&& b.len() <= usize::MAX
        &&& self.pos.byte <= b.len()
        &&& is_char_boundary(b, self.pos.byte as int)
        &&& self.current_char == (if self.pos.byte < b.len() {
            Some(b[self.pos.byte as int])
        } else {
            None::<u8>
        })
        &&& self.pos.char <= self.pos.byte
        &&& self.pos.line <= self.pos.byte
        &&& self.pos.col <= self.pos.byte
    }

    pub fn new(input: &'a str) -> (lexer: Self)
        ensures
            lexer.wf(),
            lexer.source() == input.spec_bytes(),
            lexer.offset() == 0,
    {
        let bytes = input.as_bytes();
        let current_char = if bytes.len() > 0 {
            Some(bytes[0])
        } else {
            None
        };
        Lexer { input, current_char, pos: Loc { line: 0, col: 0, byte: 0, char: 0 } }
    }

    /// Whether the current byte is `expected`.
    fn current_is(&self, expected: u8) -> (is: bool)
        requires
            self.wf(),
        ensures
            is == (self.offset() < self.source().len() && self.source()[self.offset()]
                == expected),
    {
        match self.current_char {
            Some(c) => c == expected,
            None => false,
        }
    }

    fn is_newline(&self) -> (nl: bool)
        requires
            self.wf(),
        ensures
            nl == (self.offset() < self.source().len() && self.source()[self.offset()] == 10u8),
    {
        self.current_is(10u8)
    }

    /// The input byte at `index`, or 0 past the end.
    fn byte_at(&self, index: usize) -> (c: u8)
        ensures
            c == byte_at(self.source(), index as int),
    {
        let bytes = self.input.as_bytes();
        if index < bytes.len() {
            bytes[index]
        } else {
            0
        }
    }

    fn is_whitespace(&self) -> (ws: bool)
        requires
            self.wf(),
        ensures
            ws == is_whitespace_at(self.source(), self.offset()),
    {
        let index = self.pos.byte;
        let p = self.byte_at(index);
        let q = if index < usize::MAX {
            self.byte_at(index + 1)
        } else {
            0
        };
        let r = if index < usize::MAX - 1 {
            self.byte_at(index + 2)
        } else {
            0
        };
        (p == 0x09 || p == 0x0B || p == 0x0C || p == 0x0D || p == 0x20) || (p == 0xC2 && (q
            == 0x85 || q == 0xA0)) || (p == 0xE1 && ((q == 0x9A && r == 0x80) || (q == 0xA0 && r
            == 0x8E))) || (p == 0xE2 && q == 0x80 && ((0x80 <= r && r <= 0x8A) || r == 0xA8 || r
            == 0xA9 || r == 0xAF)) || (p == 0xE2 && q == 0x81 && r == 0x9F) || (p == 0xE3 && q
            == 0x80 && r == 0x80)
    }

    fn advance(&mut self)
        requires
            old(self).wf(),
        ensures
            final(self).wf(),
            final(self).input == old(self).input,
            old(self).offset() < old(self).source().len() ==> final(self).offset() == old(self).offset()
                + char_width(old(self).source()[old(self).offset()]),
            old(self).offset() >= old(self).source().len() ==> final(self).offset() == old(
                self,
            ).offset(),
    {
        let bytes = self.input.as_bytes();
        if let Some(c) = self.current_char {
            proof {
                lemma_boundary_step(self.input.spec_bytes(), self.pos.byte as int);
            }
            self.pos.char = self.pos.char + 1;

            if c >= 0b11110000 {
                self.pos.byte = self.pos.byte + 4;
            } else if c >= 0b11100000 {
                self.pos.byte = self.pos.byte + 3;
            } else if c >= 0b11000000 {
                self.pos.byte = self.pos.byte + 2;
            } else {
                self.pos.byte = self.pos.byte + 1;
            }

            if c == 10u8 {
                self.pos.line = self.pos.line + 1;
                self.pos.col = 0;
            } else {
                self.pos.col = self.pos.col + 1;
            }
        }
        self.current_char = if self.pos.byte < bytes.len() {
            Some(bytes[self.pos.byte])
        } else {
            None
        };
    }

    fn read_whitespace(&mut self) -> (s: &'a str)
        requires
            old(self).wf(),
        ensures
            final(self).wf(),
            final(self).input == old(self).input,
            final(self).offset() == scan_whitespace(old(self).source(), old(self).offset()),
            s.spec_bytes() == final(self).source().subrange(old(self).offset(), final(self).offset()),
    {
        let start = self.pos.byte;

        while self.is_whitespace()
            invariant
                self.wf(),
                self.input == old(self).input,
                start == old(self).offset(),
                start <= self.offset(),
                scan_whitespace(self.source(), self.offset()) == scan_whitespace(
                    self.source(),
                    start as int,
                ),
            decreases self.source().len() - self.offset(),
        {
            self.advance();
        }

        str_slice(self.input, start, self.pos.byte)
    }

    /// Returns true when the current byte cannot be part of an identifier.
    fn is_forbidden_identifier_char(&self) -> (forbidden: bool)
        requires
            self.wf(),
        ensures
            forbidden == is_forbidden_identifier_byte(byte_at(self.source(), self.offset())),
    {
        let c = match self.current_char {
            Some(c) => c,
            None => 0,
        };
        c == 44u8 || c == 46u8 || c == 59u8 || c == 40u8 || c == 41u8 || c == 45u8 || c == 43u8
            || c == 47u8 || c == 42u8 || c == 94u8 || c == 61u8
    }

    fn read_any(&mut self) -> (s: &'a str)
        requires
            old(self).wf(),
        ensures
            final(self).wf(),
            final(self).input == old(self).input,
            old(self).offset() < old(self).source().len() ==> final(self).offset() == old(self).offset()
                + char_width(old(self).source()[old(self).offset()]),
            old(self).offset() >= old(self).source().len() ==> final(self).offset() == old(
                self,
            ).offset(),
            s.spec_bytes() == final(self).source().subrange(old(self).offset(), final(self).offset()),
    {
        let start = self.pos.byte;

        if self.current_char.is_some() {
            self.advance();
        }

        str_slice(self.input, start, self.pos.byte)
    }

    fn read_comment(&mut self) -> (s: &'a str)
        requires
            old(self).wf(),
        ensures
            final(self).wf(),
            final(self).input == old(self).input,
            final(self).offset() == scan_comment(old(self).source(), old(self).offset()),
            s.spec_bytes() == final(self).source().subrange(old(self).offset(), final(self).offset()),
    {
        let start = self.pos.byte;

        while self.current_char.is_some() && !self.is_newline()
            invariant
                self.wf(),
                self.input == old(self).input,
                start == old(self).offset(),
                start <= self.offset(),
                scan_comment(self.source(), self.offset()) == scan_comment(
                    self.source(),
                    start as int,
                ),
            decreases self.source().len() - self.offset(),
        {
            self.advance();
        }

        str_slice(self.input, start, self.pos.byte)
    }

    fn read_identifier(&mut self) -> (s: &'a str)
        requires
            old(self).wf(),
        ensures
            final(self).wf(),
            final(self).input == old(self).input,
            final(self).offset() == scan_identifier(old(self).source(), old(self).offset()),
            s.spec_bytes() == final(self).source().subrange(old(self).offset(), final(self).offset()),
    {
        let start = self.pos.byte;

        while self.current_char.is_some() && !(self.is_whitespace() || self.is_newline())
            && !self.is_forbidden_identifier_char()
            invariant
                self.wf(),
                self.input == old(self).input,
                start == old(self).offset(),
                start <= self.offset(),
                scan_identifier(self.source(), self.offset()) == scan_identifier(
                    self.source(),
                    start as int,
                ),
            decreases self.source().len() - self.offset(),
        {
            self.advance();
        }

        str_slice(self.input, start, self.pos.byte)
    }

    fn read_number(&mut self) -> (s: &'a str)
        requires
            old(self).wf(),
        ensures
            final(self).wf(),
            final(self).input == old(self).input,
            final(self).offset() == scan_number(old(self).source(), old(self).offset()),
            s.spec_bytes() == final(self).source().subrange(old(self).offset(), final(self).offset()),
    {
        let start = self.pos.byte;
        let ghost b = self.source();

        // Everything before the delimiter
        while self.current_is_digit()
            invariant
                self.wf(),
                self.input == old(self).input,
                self.source() == b,
                start == old(self).offset(),
                start <= self.offset(),
                scan_digits(b, self.offset()) == scan_digits(b, start as int),
            decreases b.len() - self.offset(),
        {
            self.advance();
        }

        // The delimiter
        let ghost mid = self.offset();
        if self.current_is(46u8) {
            self.advance();
        }

        // Everything after the delimiter
        let ghost after_point = self.offset();
        while self.current_is_digit()
            invariant
                self.wf(),
                self.input == old(self).input,
                self.source() == b,
                start <= self.offset(),
                scan_digits(b, self.offset()) == scan_digits(b, after_point),
            decreases b.len() - self.offset(),
        {
            self.advance();
        }

        str_slice(self.input, start, self.pos.byte)
    }

    fn current_is_digit(&self) -> (d: bool)
        requires
            self.wf(),
        ensures
            d == (self.offset() < self.source().len() && is_digit(self.source()[self.offset()])),
    {
        match self.current_char {
            Some(c) => 48u8 <= c && c <= 57u8,
            None => false,
        }
    }

    /// Reads the next token; at the end of the input this is the end-of-input
    /// token, and the lexer stays where it is.
    pub fn next_token(&mut self) -> (token: Token<'a>)
        requires
            old(self).wf(),
        ensures
            final(self).wf(),
            final(self).source() == old(self).source(),
            token@ == token_at(old(self).source(), old(self).offset()),
            final(self).offset() == offset_after(old(self).source(), old(self).offset()),
    {
        let offset = self.pos.byte;
        let c = match self.current_char {
            None => {
                return Token { symbol: Symbol::Eof, index_from: self.pos.byte, index_to: 0 };
            },
            Some(c) => c,
        };

        let token = if c == 59u8 {
            self.advance();
            Symbol::SemiColon
        } else if c == 43u8 {
            self.advance();
            Symbol::Plus
        } else if c == 45u8 {
            self.advance();
            Symbol::Minus
        } else if c == 42u8 {
            self.advance();
            Symbol::Multiply
        } else if c == 47u8 {
            self.advance();

            if self.current_is(47u8) {
                self.advance();
                let comment = self.read_comment();
                Symbol::Comment(comment)
            } else {
                Symbol::Divide
            }
        } else if c == 61u8 {
            self.advance();

            if self.current_is(61u8) {
                self.advance();
                Symbol::Equals
            } else {
                Symbol::Assign
            }
        } else if c == 33u8 {
            self.advance();

            if self.current_is(61u8) {
                self.advance();
                Symbol::NotEqual
            } else {
                Symbol::Bang
            }
        } else if c == 62u8 {
            self.advance();

            if self.current_is(61u8) {
                self.advance();
                Symbol::GreaterEqualThan
            } else {
                Symbol::GreaterThan
            }
        } else if c == 60u8 {
            self.advance();

            if self.current_is(61u8) {
                self.advance();
                Symbol::LessEqualThan
            } else {
                Symbol::LessThan
            }
        } else if c == 40u8 {
            self.advance();
            Symbol::LeftParen
        } else if c == 41u8 {
            self.advance();
            Symbol::RightParen
        } else if c == 123u8 {
            self.advance();
            Symbol::LeftBrace
        } else if c == 125u8 {
            self.advance();
            Symbol::RightBrace
        } else if c == 44u8 {
            self.advance();
            Symbol::Comma
        } else if (97u8 <= c && c <= 122u8) || (65u8 <= c && c <= 90u8) || c == 95u8 {
            let word = self.read_identifier();
            word_symbol(word)
        } else if 48u8 <= c && c <= 57u8 {
            let num = self.read_number();
            Symbol::Number(num)
        } else if c == 10u8 {
            self.advance();
            Symbol::LineBreak
        } else if self.is_whitespace() {
            let whitespace = self.read_whitespace();
            Symbol::Whitespace(whitespace)
        } else {
            let any = self.read_any();
            Symbol::Undefined(any)
        };

        Token { symbol: token, index_from: offset, index_to: self.pos.byte }
    }

    /// Reads all remaining tokens, up to and including the end-of-input token.
    pub fn collect(&mut self) -> (tokens: Vec<Token<'a>>)
        requires
            old(self).wf(),
        ensures
            final(self).wf(),
            final(self).source() == old(self).source(),
            final(self).offset() == final(self).source().len(),
            tokens_view(tokens@) == lex_tokens(old(self).source(), old(self).offset()),
    {
        let ghost b = self.source();
        let ghost start = self.offset();
        let mut vec: Vec<Token<'a>> = Vec::new();
        let mut token = self.next_token();

        while !matches!(token.symbol, Symbol::Eof)
            invariant
                self.wf(),
                self.source() == b,
                token.index_from <= b.len(),
                token@ == token_at(b, token.index_from as int),
                self.offset() == offset_after(b, token.index_from as int),
                tokens_view(vec@) + lex_tokens(b, token.index_from as int) == lex_tokens(b, start),
            decreases b.len() - token.index_from,
        {
            proof {
                lemma_lex_symbol_progress(b, token.index_from as int);
                assert(lex_tokens(b, token.index_from as int) == seq![token@] + lex_tokens(
                    b,
                    self.offset(),
                ));
                assert(tokens_view(vec@.push(token)) =~= tokens_view(vec@).push(token@));
                assert(tokens_view(vec@).push(token@) + lex_tokens(b, self.offset()) =~= tokens_view(vec@) + (seq![token@] + lex_tokens(b, self.offset())));
            }
            vec.push(token);
            token = self.next_token();
        }
        proof {
            if token.index_from < b.len() {
                lemma_lex_symbol_progress(b, token.index_from as int);
            }
            assert(lex_tokens(b, token.index_from as int) == seq![token@]);
            assert(tokens_view(vec@.push(token)) =~= tokens_view(vec@).push(token@));
        }
        vec.push(token);
        vec
    }
}

/* Laws of the lexical grammar. */

/// The source text that a symbol stands for: its fixed spelling, or the text
/// it carries (a comment's text follows the two slashes that open it).
pub open spec fn symbol_source(s: SymbolView) -> Seq<u8> {
    match s {
        SymbolView::Undefined(text) => text,
        SymbolView::Eof => Seq::empty(),
        SymbolView::Identifier(text) => text,
        SymbolView::Number(text) => text,
        SymbolView::True => seq![116u8, 114u8, 117u8, 101u8],
        SymbolView::False => seq![102u8, 97u8, 108u8, 115u8, 101u8],
        SymbolView::Plus => seq![43u8],
        SymbolView::Minus => seq![45u8],
        SymbolView::Multiply => seq![42u8],
        SymbolView::Divide => seq![47u8],
        SymbolView::Assign => seq![61u8],
        SymbolView::Bang => seq![33u8],
        SymbolView::Equals => seq![61u8, 61u8],
        SymbolView::NotEqual => seq![33u8, 61u8],
        SymbolView::GreaterThan => seq![62u8],
        SymbolView::GreaterEqualThan => seq![62u8, 61u8],
        SymbolView::LessThan => seq![60u8],
        SymbolView::LessEqualThan => seq![60u8, 61u8],
        SymbolView::LeftParen => seq![40u8],
        SymbolView::RightParen => seq![41u8],
        SymbolView::Comma => seq![44u8],
        SymbolView::SemiColon => seq![59u8],
        SymbolView::LeftBrace => seq![123u8],
        SymbolView::RightBrace => seq![125u8],
        SymbolView::If => seq![105u8, 102u8],
        SymbolView::Else => seq![101u8, 108u8, 115u8, 101u8],
        SymbolView::While => seq![119u8, 104u8, 105u8, 108u8, 101u8],
        SymbolView::Return => seq![114u8, 101u8, 116u8, 117u8, 114u8, 110u8],
        SymbolView::Break => seq![98u8, 114u8, 101u8, 97u8, 107u8],
        SymbolView::Forward => seq![102u8, 111u8, 114u8, 119u8, 97u8, 114u8, 100u8],
        SymbolView::Left => seq![108u8, 101u8, 102u8, 116u8],
        SymbolView::Right => seq![114u8, 105u8, 103u8, 104u8, 116u8],
        SymbolView::Func => seq![102u8, 117u8, 110u8, 99u8],
        SymbolView::Whitespace(text) => text,
        SymbolView::Comment(text) => seq![47u8, 47u8] + text,
        SymbolView::LineBreak => seq![10u8],
    }
}

proof fn lemma_scan_whitespace_boundary(b: Seq<u8>, i: int)
    requires
        valid_utf8(b),
        0 <= i <= b.len(),
        is_char_boundary(b, i),
    ensures
        i <= scan_whitespace(b, i) <= b.len(),
        is_char_boundary(b, scan_whitespace(b, i)),
    decreases b.len() - i,
{
    if i < b.len() && is_whitespace_at(b, i) {
        lemma_boundary_step(b, i);
        lemma_scan_whitespace_boundary(b, i + char_width(b[i]));
    }
}

proof fn lemma_scan_identifier_boundary(b: Seq<u8>, i: int)
    requires
        valid_utf8(b),
        0 <= i <= b.len(),
        is_char_boundary(b, i),
    ensures
        i <= scan_identifier(b, i) <= b.len(),
        is_char_boundary(b, scan_identifier(b, i)),
    decreases b.len() - i,
{
    if i < b.len() && !is_whitespace_at(b, i) && b[i] != 10u8 && !is_forbidden_identifier_byte(b[i]) {
        lemma_boundary_step(b, i);
        lemma_scan_identifier_boundary(b, i + char_width(b[i]));
    }
}

proof fn lemma_scan_comment_boundary(b: Seq<u8>, i: int)
    requires
        valid_utf8(b),
        0 <= i <= b.len(),
        is_char_boundary(b, i),
    ensures
        i <= scan_comment(b, i) <= b.len(),
        is_char_boundary(b, scan_comment(b, i)),
    decreases b.len() - i,
{
    if i < b.len() && b[i] != 10u8 {
        lemma_boundary_step(b, i);
        lemma_scan_comment_boundary(b, i + char_width(b[i]));
    }
}

proof fn lemma_scan_digits_boundary(b: Seq<u8>, i: int)
    requires
        valid_utf8(b),
        0 <= i <= b.len(),
        is_char_boundary(b, i),
    ensures
        i <= scan_digits(b, i) <= b.len(),
        is_char_boundary(b, scan_digits(b, i)),
    decreases b.len() - i,
{
    if i < b.len() && is_digit(b[i]) {
        lemma_boundary_step(b, i);
        lemma_scan_digits_boundary(b, i + 1);
    }
}

/// In valid UTF-8, a symbol read at a character boundary ends at a later
/// character boundary inside the input, and the bytes it spans are its source
/// text.
pub proof fn lemma_lex_symbol_source(b: Seq<u8>, i: int)
    requires
        valid_utf8(b),
        0 <= i < b.len(),
        is_char_boundary(b, i),
    ensures
        i < lex_symbol(b, i).1 <= b.len(),
        is_char_boundary(b, lex_symbol(b, i).1),
        b.subrange(i, lex_symbol(b, i).1) == symbol_source(lex_symbol(b, i).0),
{
    let c = b[i];
    let (s, e) = lex_symbol(b, i);
    lemma_lex_symbol_progress(b, i);
    lemma_boundary_step(b, i);
    let n = i + char_width(c);
    if n < b.len() {
        lemma_boundary_step(b, n);
    }
    if c == 47u8 && byte_at(b, i + 1) == 47u8 {
        lemma_scan_comment_boundary(b, i + 2);
        assert(b.subrange(i, e) =~= seq![47u8, 47u8] + b.subrange(i + 2, e));
    } else if is_identifier_start(c) {
        lemma_scan_identifier_boundary(b, i);
        let w = b.subrange(i, e);
        assert(symbol_source(word_view(w)) == w);
    } else if is_digit(c) {
        lemma_scan_digits_boundary(b, i);
        let a = scan_digits(b, i);
        if a < b.len() && b[a] == 46u8 {
            lemma_boundary_step(b, a);
            lemma_scan_digits_boundary(b, a + 1);
        } else {
            lemma_scan_digits_boundary(b, a);
        }
    } else if c == 10u8 {
    } else if is_whitespace_at(b, i) {
        lemma_scan_whitespace_boundary(b, i);
    }
    if e == i + 1 {
        assert(b.subrange(i, e) =~= seq![c]);
    } else if e == i + 2 && !(c == 47u8 && byte_at(b, i + 1) == 47u8) {
        assert(b.subrange(i, e) =~= seq![c, b[i + 1]]);
    }
}

/// Lexing is lossless: from a character boundary of valid UTF-8, the tokens
/// read are contiguous, each ends at a character boundary and spans the
/// source text of its symbol, and they end with the end-of-input token at the
/// end of the input.
pub proof fn law_lexing_is_lossless(b: Seq<u8>, i: int)
    requires
        valid_utf8(b),
        0 <= i <= b.len(),
        is_char_boundary(b, i),
    ensures
        ({
            let ts = lex_tokens(b, i);
            &&& ts.len() >= 1
            &&& ts[0].index_from == i
            &&& ts.last() == (TokenView { symbol: SymbolView::Eof, index_from: b.len() as int, index_to: 0 })
            &&& forall|k: int| 0 <= k < ts.len() - 1 ==> {
                &&& !(#[trigger] ts[k].symbol is Eof)
                &&& ts[k].index_from < ts[k].index_to <= b.len()
                &&& is_char_boundary(b, ts[k].index_to)
                &&& ts[k].index_to == ts[k + 1].index_from
                &&& b.subrange(ts[k].index_from, ts[k].index_to) == symbol_source(ts[k].symbol)
            }
        }),
    decreases b.len() - i,
{
    if i < b.len() {
        lemma_lex_symbol_source(b, i);
        let e = lex_symbol(b, i).1;
        law_lexing_is_lossless(b, e);
        let rest = lex_tokens(b, e);
        let ts = lex_tokens(b, i);
        assert(ts == seq![token_at(b, i)] + rest);
        assert forall|k: int| 0 <= k < ts.len() - 1 implies {
            &&& !(#[trigger] ts[k].symbol is Eof)
            &&& ts[k].index_from < ts[k].index_to <= b.len()
            &&& is_char_boundary(b, ts[k].index_to)
            &&& ts[k].index_to == ts[k + 1].index_from
            &&& b.subrange(ts[k].index_from, ts[k].index_to) == symbol_source(ts[k].symbol)
        } by {
            if k > 0 {
                assert(ts[k] == rest[k - 1]);
                assert(ts[k + 1] == rest[k]);
            }
        }
    }
}

/// The length a symbol reports is the length of the input it was read from,
/// except for a comment, whose reported text leaves out its two slashes.
pub proof fn law_symbol_len_is_span(b: Seq<u8>, i: int)
    requires
        valid_utf8(b),
        0 <= i < b.len(),
        is_char_boundary(b, i),
    ensures
        ({
            let (s, e) = lex_symbol(b, i);
            &&& s is Comment ==> e - i == s.len() + 2
            &&& !(s is Comment) ==> e - i == s.len()
        }),
{
    lemma_lex_symbol_source(b, i);
    let (s, e) = lex_symbol(b, i);
    assert(symbol_source(s).len() == if s is Comment { s.len() + 2 } else { s.len() });
}

proof fn lemma_scan_identifier_stops(b: Seq<u8>, i: int)
    requires
        0 <= i,
    ensures
        ({
            let e = scan_identifier(b, i);
            e >= b.len() || is_whitespace_at(b, e) || b[e] == 10u8 || is_forbidden_identifier_byte(b[e])
        }),
    decreases b.len() + 4 - i,
{
    if 0 <= i < b.len() && !is_whitespace_at(b, i) && b[i] != 10u8 && !is_forbidden_identifier_byte(b[i]) {
        lemma_scan_identifier_stops(b, i + char_width(b[i]));
    }
}

/// In valid UTF-8, no character boundary lies inside a character.
proof fn lemma_boundary_interior(bytes: Seq<u8>, i: int, k: int)
    requires
        valid_utf8(bytes),
        is_char_boundary(bytes, i),
        0 <= i < bytes.len(),
        i < k < i + char_width(bytes[i]),
    ensures
        !is_char_boundary(bytes, k),
    decreases bytes.len(),
{
    let n = length_of_first_scalar(bytes);
    let rest = pop_first_scalar(bytes);
    assert(valid_first_scalar(bytes) && valid_utf8(rest));
    assert(rest.len() == bytes.len() - n);
    lemma_boundary_step(bytes, i);
    assert(is_char_boundary(bytes, k) == is_char_boundary(rest, k - n));
    if i == 0 {
        assert(char_width(bytes[0]) == n);
        assert(!is_char_boundary(rest, k - n));
    } else {
        assert(is_char_boundary(rest, i - n));
        assert(rest[i - n] == bytes[i]);
        lemma_boundary_interior(rest, i - n, k - n);
    }
}

proof fn lemma_scan_identifier_interior(b: Seq<u8>, i: int, k: int)
    requires
        valid_utf8(b),
        0 <= i <= b.len(),
        is_char_boundary(b, i),
        i <= k < scan_identifier(b, i),
        is_char_boundary(b, k),
    ensures
        !is_whitespace_at(b, k) && b[k] != 10u8 && !is_forbidden_identifier_byte(b[k]),
    decreases b.len() - i,
{
    if k > i {
        let n = i + char_width(b[i]);
        lemma_boundary_step(b, i);
        if k < n {
            lemma_boundary_interior(b, i, k);
        } else {
            lemma_scan_identifier_interior(b, n, k);
        }
    }
}

/// A word that starts with a letter or an underscore runs up to the first
/// whitespace, line break or delimiter byte (`, . ; ( ) - + / * ^ =`), or to
/// the end of the input, ending on a character boundary, and no character of
/// it is one of those; it reads as the keyword it spells, or else as an
/// identifier.
pub proof fn law_word_extent(b: Seq<u8>, i: int)
    requires
        valid_utf8(b),
        0 <= i < b.len(),
        is_char_boundary(b, i),
        is_identifier_start(b[i]),
    ensures
        ({
            let (s, e) = lex_symbol(b, i);
            &&& i < e <= b.len()
            &&& is_char_boundary(b, e)
            &&& s == word_view(b.subrange(i, e))
            &&& e == b.len() || is_whitespace_at(b, e) || b[e] == 10u8 || is_forbidden_identifier_byte(b[e])
            &&& forall|k: int|
                i <= k < e && is_char_boundary(b, k) ==> !is_whitespace_at(b, k) && b[k] != 10u8
                    && !is_forbidden_identifier_byte(#[trigger] b[k])
        }),
{
    lemma_lex_symbol_source(b, i);
    lemma_scan_identifier_stops(b, i);
    lemma_scan_identifier_boundary(b, i);
    let e = lex_symbol(b, i).1;
    assert forall|k: int|
        i <= k < e && is_char_boundary(b, k) implies !is_whitespace_at(b, k) && b[k] != 10u8
            && !is_forbidden_identifier_byte(#[trigger] b[k]) by {
        lemma_scan_identifier_interior(b, i, k);
    }
}

proof fn lemma_scan_digits_run(b: Seq<u8>, j: int, m: int)
    requires
        0 <= j <= m <= b.len(),
        forall|k: int| j <= k < m ==> is_digit(#[trigger] b[k]),
        m == b.len() || !is_digit(b[m]),
    ensures
        scan_digits(b, j) == m,
    decreases m - j,
{
    if j < m {
        lemma_scan_digits_run(b, j + 1, m);
    }
}

/// A numeral runs over its digits, at most one decimal point and the digits
/// after that point: when the bytes from `i` are one or more digits up to
/// `d`, then either nothing more (the byte at `d` being neither a digit nor a
/// point) or a `.` at `d` followed by digits up to `e`, the symbol read at `i`
/// is the number spelled by all of those bytes, and reading goes on at `e`.
pub proof fn law_numeral_extent(b: Seq<u8>, i: int, d: int, e: int)
    requires
        0 <= i < d <= e <= b.len(),
        forall|k: int| i <= k < d ==> is_digit(#[trigger] b[k]),
        d == e ==> (d == b.len() || (b[d] != 46u8 && !is_digit(b[d]))),
        d < e ==> b[d] == 46u8 && (forall|k: int| d < k < e ==> is_digit(#[trigger] b[k])),
        d < e ==> (e == b.len() || !is_digit(b[e])),
    ensures
        lex_symbol(b, i) == (SymbolView::Number(b.subrange(i, e)), e),
{
    assert(is_digit(b[i]));
    lemma_scan_digits_run(b, i, d);
    if d < e {
        lemma_scan_digits_run(b, d + 1, e);
    }
}

} // verus!
