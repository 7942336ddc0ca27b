//! A small lexer and recursive-descent parser for a toy imperative language
//! (`i32` declarations, assignments, `if`/`else`, `while`, `+`, `*`, `==`, `<`),
//! with a pre-order printer for the syntax tree.
pub mod ast;
pub mod input;
pub mod lexer;
pub mod parser;
pub mod report;
pub mod text;
pub mod token;
