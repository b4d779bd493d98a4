//! Arithmetic expressions with named variables: a grammar, a parser that
//! builds a syntax tree by precedence climbing, a tree-walking evaluator, and
//! a solver that sweeps a one-parameter function over a range of integers.

pub mod ast;
pub mod compiler;
pub mod definition;
pub mod error;
pub mod grammar;
pub mod laws;
pub mod lexer;
pub mod parser;
pub mod preprocessor;
pub mod solver;
pub mod text;

pub use crate::ast::{Expr, Node, Operator};
pub use crate::compiler::interpreter::{Eval, Interpreter, Operation, Vars};
pub use crate::compiler::Compile;
pub use crate::definition::{split_definition, Definition};
pub use crate::error::Error;
pub use crate::grammar::{Expected, ParseError};
pub use crate::lexer::{tokenize, Token, TokenKind};
pub use crate::parser::parse;
pub use crate::preprocessor::prepare_equ;
pub use crate::solver::{solve, solve_equ, solve_func, solve_funcs};
