//! The expression language: text utilities, syntax tree, parser, printer
//! and interpreter.
pub mod ast;
pub mod builtins;
pub mod depth;
pub mod errors;
pub mod keyed;
pub mod lexer;
pub mod ordered;
pub mod ordered_eval;
pub mod parser;
pub mod s_exprs;
pub mod semantics;
pub mod text;
pub mod treewalk;
