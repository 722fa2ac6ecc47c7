pub mod ast;
pub mod commands;
pub mod expression;
pub mod grammar;
pub mod predicate;
pub mod statement;
