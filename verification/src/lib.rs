//! A small single-variable equation interpreter.
//!
//! An equation string such as `"2x+1"` is parsed once into a tree of
//! [`ast::EquationElement`] nodes and then evaluated for each integer value
//! of the variable in a contiguous range, yielding one `i32` result per
//! sample point.

pub mod ast;
pub mod calculator;
pub mod canvas;
pub mod commands;
pub mod eval;
pub mod parser;
pub mod text;
