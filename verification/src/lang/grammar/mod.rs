pub mod construct;
pub mod expression;
pub mod statement;
