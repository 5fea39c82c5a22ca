use vstd::prelude::*;

use crate::lang::ast::string_bytes;
use crate::lang::lex::{lemma_lex_symbol_source, lex_symbol, symbol_source, Symbol, SymbolView};
use vstd::utf8::{
    decode_utf8_encode_utf8,
    encode_utf8,
    is_ascii_chars_encode_utf8,
    is_char_boundary,
    is_char_boundary_iff_not_is_continuation_byte,
    valid_utf8,
    valid_utf8_split,
};

verus! {

/// A piece of highlighted source text: the text, a hint and the kind of
/// syntax it belongs to.
#[derive(Debug, Clone)]
pub struct Fragment {
    pub value: String,
    pub hint: u8,
    pub kind: u8,
}

pub type Line = Vec<Fragment>;

/// Highlighted source text, line by line, with hints.
#[derive(Debug, Clone)]
pub struct Highlight {
    pub lines: Vec<Line>,
    pub hints: Vec<String>,
}

/// The mathematical model of a [`Fragment`].
pub ghost struct FragmentView {
    pub value: Seq<u8>,
    pub hint: u8,
    pub kind: u8,
}

impl View for Fragment {
    type V = FragmentView;

    open spec fn view(&self) -> FragmentView {
        FragmentView { value: string_bytes(self.value), hint: self.hint, kind: self.kind }
    }
}

/// The source text of a symbol that is not layout.
pub open spec fn symbol_text(s: SymbolView) -> Seq<char> {
    match s {
        SymbolView::Assign => seq!['='],
        SymbolView::Plus => seq!['+'],
        SymbolView::Minus => seq!['-'],
        SymbolView::Multiply => seq!['*'],
        SymbolView::Divide => seq!['/'],
        SymbolView::Bang => seq!['!'],
        SymbolView::LessThan => seq!['<'],
        SymbolView::GreaterThan => seq!['>'],
        SymbolView::LessEqualThan => seq!['<', '='],
        SymbolView::GreaterEqualThan => seq!['>', '='],
        SymbolView::Equals => seq!['=', '='],
        SymbolView::NotEqual => seq!['!', '='],
        SymbolView::If => seq!['i', 'f'],
        SymbolView::Else => seq!['e', 'l', 's', 'e'],
        SymbolView::While => seq!['w', 'h', 'i', 'l', 'e'],
        SymbolView::Func => seq!['f', 'u', 'n', 'c'],
        SymbolView::Return => seq!['r', 'e', 't', 'u', 'r', 'n'],
        SymbolView::Break => seq!['b', 'r', 'e', 'a', 'k'],
        SymbolView::Forward => seq!['f', 'o', 'r', 'w', 'a', 'r', 'd'],
        SymbolView::Left => seq!['l', 'e', 'f', 't'],
        SymbolView::Right => seq!['r', 'i', 'g', 'h', 't'],
        SymbolView::Comma => seq![','],
        SymbolView::SemiColon => seq![';'],
        SymbolView::LeftParen => seq!['('],
        SymbolView::RightParen => seq![')'],
        SymbolView::LeftBrace => seq!['{'],
        SymbolView::RightBrace => seq!['}'],
        SymbolView::Identifier(name) => vstd::utf8::decode_utf8(name),
        SymbolView::Number(num) => vstd::utf8::decode_utf8(num),
        SymbolView::Eof => Seq::empty(),
        SymbolView::Undefined(text) => vstd::utf8::decode_utf8(text),
        SymbolView::True => seq!['t', 'r', 'u', 'e'],
        SymbolView::False => seq!['f', 'a', 'l', 's', 'e'],
        _ => Seq::empty(),
    }
}

/// The text of a string slice, as a `String`.
fn text_of(s: &str) -> (text: String)
    ensures
        text@ == s@,
{
    s.to_string()
}

/// The source text of a symbol; layout symbols have none to give.
pub fn token_to_string(token: Symbol) -> (text: String)
    requires
        !(token@ is Whitespace || token@ is Comment || token@ is LineBreak),
    ensures
        text@ == symbol_text(token@),
{
    proof {
        vstd::utf8::encode_utf8_decode_utf8(match token {
            Symbol::Identifier(s) => s@,
            Symbol::Number(s) => s@,
            Symbol::Undefined(s) => s@,
            _ => Seq::empty(),
        });
    }
    match token {
        Symbol::Assign => {
            proof { reveal_strlit("="); }
            text_of("=")
        },
        Symbol::Plus => {
            proof { reveal_strlit("+"); }
            text_of("+")
        },
        Symbol::Minus => {
            proof { reveal_strlit("-"); }
            text_of("-")
        },
        Symbol::Multiply => {
            proof { reveal_strlit("*"); }
            text_of("*")
        },
        Symbol::Divide => {
            proof { reveal_strlit("/"); }
            text_of("/")
        },
        Symbol::Bang => {
            proof { reveal_strlit("!"); }
            text_of("!")
        },
        Symbol::LessThan => {
            proof { reveal_strlit("<"); }
            text_of("<")
        },
        Symbol::GreaterThan => {
            proof { reveal_strlit(">"); }
            text_of(">")
        },
        Symbol::LessEqualThan => {
            proof { reveal_strlit("<="); }
            text_of("<=")
        },
        Symbol::GreaterEqualThan => {
            proof { reveal_strlit(">="); }
            text_of(">=")
        },
        Symbol::Equals => {
            proof { reveal_strlit("=="); }
            text_of("==")
        },
        Symbol::NotEqual => {
            proof { reveal_strlit("!="); }
            text_of("!=")
        },
        Symbol::If => {
            proof { reveal_strlit("if"); }
            text_of("if")
        },
        Symbol::Else => {
            proof { reveal_strlit("else"); }
            text_of("else")
        },
        Symbol::While => {
            proof { reveal_strlit("while"); }
            text_of("while")
        },
        Symbol::Func => {
            proof { reveal_strlit("func"); }
            text_of("func")
        },
        Symbol::Return => {
            proof { reveal_strlit("return"); }
            text_of("return")
        },
        Symbol::Break => {
            proof { reveal_strlit("break"); }
            text_of("break")
        },
        Symbol::Forward => {
            proof { reveal_strlit("forward"); }
            text_of("forward")
        },
        Symbol::Left => {
            proof { reveal_strlit("left"); }
            text_of("left")
        },
        Symbol::Right => {
            proof { reveal_strlit("right"); }
            text_of("right")
        },
        Symbol::Comma => {
            proof { reveal_strlit(","); }
            text_of(",")
        },
        Symbol::SemiColon => {
            proof { reveal_strlit(";"); }
            text_of(";")
        },
        Symbol::LeftParen => {
            proof { reveal_strlit("("); }
            text_of("(")
        },
        Symbol::RightParen => {
            proof { reveal_strlit(")"); }
            text_of(")")
        },
        Symbol::LeftBrace => {
            proof { reveal_strlit("{"); }
            text_of("{")
        },
        Symbol::RightBrace => {
            proof { reveal_strlit("}"); }
            text_of("}")
        },
        Symbol::Identifier(name) => text_of(name),
        Symbol::Number(num) => text_of(num),
        Symbol::Eof => {
            proof { reveal_strlit(""); }
            text_of("")
        },
        Symbol::Undefined(text) => text_of(text),
        Symbol::True => {
            proof { reveal_strlit("true"); }
            text_of("true")
        },
        Symbol::False => {
            proof { reveal_strlit("false"); }
            text_of("false")
        },
        _ => vstd::pervasive::unreached(),
    }
}

/// Printing a lexed symbol that is not layout gives back the bytes it was
/// read from.
pub proof fn law_symbol_text_is_source(b: Seq<u8>, i: int)
    requires
        valid_utf8(b),
        0 <= i < b.len(),
        is_char_boundary(b, i),
        !(lex_symbol(b, i).0 is Whitespace || lex_symbol(b, i).0 is Comment || lex_symbol(b, i).0 is LineBreak),
    ensures
        encode_utf8(symbol_text(lex_symbol(b, i).0)) == b.subrange(i, lex_symbol(b, i).1),
{
    let (s, e) = lex_symbol(b, i);
    lemma_lex_symbol_source(b, i);
    let piece = b.subrange(i, e);
    assert(piece == symbol_source(s));
    match s {
        SymbolView::Identifier(text) | SymbolView::Number(text) | SymbolView::Undefined(text) => {
            valid_utf8_split(b, e);
            let prefix = b.subrange(0, e);
            is_char_boundary_iff_not_is_continuation_byte(b, i);
            is_char_boundary_iff_not_is_continuation_byte(prefix, i);
            assert(prefix[i] == b[i]);
            valid_utf8_split(prefix, i);
            assert(prefix.subrange(i, prefix.len() as int) =~= piece);
            decode_utf8_encode_utf8(piece);
        },
        SymbolView::Eof => {
            assert(encode_utf8(Seq::<char>::empty()) =~= Seq::<u8>::empty());
        },
        _ => {
            let chars = symbol_text(s);
            assert(vstd::utf8::is_ascii_chars(chars));
            is_ascii_chars_encode_utf8(chars);
            assert(encode_utf8(chars) =~= symbol_source(s));
        },
    }
}

} // verus!
