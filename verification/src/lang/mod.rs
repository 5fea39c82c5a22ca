pub mod ast;
pub mod compile;
pub mod grammar;
pub mod lex;
pub mod parse;
pub mod run;

pub use ast::{Cons, Expr, MoveDirection, Operator, Param, Program, Stmt};
pub use grammar::expression::parse_expr;
pub use lex::{Lexer, Symbol};
pub use run::{ReadResult, Run};
