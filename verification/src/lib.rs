//! A small turtle-graphics language: lexer, token runs and parsers, together
//! with the pixel canvas, the stack machine and the wire encoding used by the
//! editor.

pub mod lang;
pub mod machine;
pub mod wasm;
