//! The back ends that give a syntax tree a meaning.

use vstd::prelude::*;
use vstd::pervasive::unreached;
use crate::ast::{Expr, Node};
use crate::compiler::interpreter::{total, Operation, Vars};
use crate::grammar::syntax_tree;
use crate::parser::parse;

pub mod interpreter;

verus! {

/// A back end: it turns a syntax tree and an environment into an output of
/// its own kind, with the arithmetic that it is given.
pub trait Compile<V: Copy, A: Fn(Operation<V>) -> V> {
    /// What the back end produces.
    type Output;

    /// Whether `output` is what the back end owes for a tree in an
    /// environment.
    spec fn compiled(arithmetic: A, tree: Expr, env: Map<Seq<char>, V>, output: Self::Output) -> bool;

    /// Runs the back end on a tree.
    fn from_ast(ast: &Node, vars: &Vars<V>, arithmetic: &A) -> (output: Self::Output)
        requires
            ast.well_formed(),
            total(*arithmetic),
        ensures
            Self::compiled(*arithmetic, ast@, vars@, output),
    ;

    /// Parses a source text that conforms to the grammar, and runs the back
    /// end on its tree.
    fn from_source(source: &str, vars: &Vars<V>, arithmetic: &A) -> (output: Self::Output)
        requires
            syntax_tree(source@) is Ok,
            total(*arithmetic),
        ensures
            Self::compiled(*arithmetic, syntax_tree(source@)->Ok_0, vars@, output),
    {
        match parse(source) {
            Ok(ast) => Self::from_ast(&ast, vars, arithmetic),
            Err(_) => unreached(),
        }
    }
}

} // verus!
