//! The tree-walking evaluator.
//!
//! The evaluator decides the order of evaluation, resolves variables and
//! reports the first one that has no value. The arithmetic itself is the
//! caller's: a function from an [`Operation`] to its value. The evaluator
//! promises of a value no more than that the arithmetic gave it.

use vstd::prelude::*;
use vstd::string::*;
use vstd::hash_map::StringHashMap;
use crate::ast::{is_decimal, Expr, Node, Operator};
use crate::compiler::Compile;
use crate::error::{Error, Failure};

verus! {

/// The variable environment: a value for each name that it knows.
pub type Vars<V> = StringHashMap<V>;

/// What the evaluator asks the arithmetic to compute.
pub enum Operation<'a, V> {
    /// The value that a decimal literal denotes.
    Literal(&'a str),
    /// The value of an integer.
    Integer(i64),
    /// The value of an operator applied to two values, left and right.
    Binary(Operator, V, V),
}

impl<'a, V> Operation<'a, V> {
    /// The operations that the library asks for: its literals are decimal
    /// literals, and it never applies the `Negative` marker.
    pub open spec fn valid(self) -> bool {
        match self {
            Operation::Literal(text) => is_decimal(text@),
            Operation::Integer(_) => true,
            Operation::Binary(op, _, _) => op != Operator::Negative,
        }
    }
}

/// Whether the arithmetic can be asked for every valid operation.
pub open spec fn total<V, A: Fn(Operation<V>) -> V>(arithmetic: A) -> bool {
    forall|operation: Operation<V>| operation.valid() ==> call_requires(arithmetic, (operation,))
}

/// Whether the arithmetic can give `value` for the decimal literal `text`.
pub open spec fn denotes<V, A: Fn(Operation<V>) -> V>(
    arithmetic: A,
    text: Seq<char>,
    value: V,
) -> bool {
    exists|literal: &str|
        literal@ == text && call_ensures(arithmetic, (Operation::Literal(literal),), value)
}

/// Whether the arithmetic can give `value` for the integer `number`.
pub open spec fn converts<V, A: Fn(Operation<V>) -> V>(
    arithmetic: A,
    number: i64,
    value: V,
) -> bool {
    call_ensures(arithmetic, (Operation::Integer(number),), value)
}

/// Whether the arithmetic can give `value` for `op` applied to `left` and
/// `right`.
pub open spec fn combines<V, A: Fn(Operation<V>) -> V>(
    arithmetic: A,
    op: Operator,
    left: V,
    right: V,
    value: V,
) -> bool {
    call_ensures(arithmetic, (Operation::Binary(op, left, right),), value)
}

/// Whether the tree can evaluate to `value` in the environment `env`: a
/// number to what the arithmetic gives for its literal, a variable to its
/// value in `env`, a unary node to the value of its operand, unchanged, and a
/// binary node to what the arithmetic gives for its operator and the values
/// of its operands.
pub open spec fn yields<V, A: Fn(Operation<V>) -> V>(
    arithmetic: A,
    tree: Expr,
    env: Map<Seq<char>, V>,
    value: V,
) -> bool
    decreases tree,
{
    match tree {
        Expr::Number(text) => denotes(arithmetic, text, value),
        Expr::Variable(name) => env.contains_key(name) && env[name] == value,
        Expr::Unary(inner) => yields(arithmetic, *inner, env, value),
        Expr::Binary(op, lhs, rhs) => exists|left: V, right: V|
            {
                &&& yields(arithmetic, *lhs, env, left)
                &&& yields(arithmetic, *rhs, env, right)
                &&& combines(arithmetic, op, left, right, value)
            },
    }
}

/// The first variable of the tree, in the order of evaluation (left operand
/// before right), that is not among `known`.
pub open spec fn first_unknown(tree: Expr, known: Set<Seq<char>>) -> Option<Seq<char>>
    decreases tree,
{
    match tree {
        Expr::Number(_) => None,
        Expr::Variable(name) => if known.contains(name) {
            None
        } else {
            Some(name)
        },
        Expr::Unary(inner) => first_unknown(*inner, known),
        Expr::Binary(_, lhs, rhs) => match first_unknown(*lhs, known) {
            Some(name) => Some(name),
            None => first_unknown(*rhs, known),
        },
    }
}

/// The names of the variables of the tree.
pub open spec fn variables(tree: Expr) -> Set<Seq<char>>
    decreases tree,
{
    match tree {
        Expr::Number(_) => Set::empty(),
        Expr::Variable(name) => set![name],
        Expr::Unary(inner) => variables(*inner),
        Expr::Binary(_, lhs, rhs) => variables(*lhs).union(variables(*rhs)),
    }
}

/// Whether `result` is what evaluating the tree in `env` owes: the failure
/// that names the first unknown variable, where there is one, and otherwise a
/// value that the tree yields.
pub open spec fn evaluated<V, A: Fn(Operation<V>) -> V>(
    arithmetic: A,
    tree: Expr,
    env: Map<Seq<char>, V>,
    result: Result<V, Error>,
) -> bool {
    match first_unknown(tree, env.dom()) {
        Some(name) => result matches Err(e) && e@ == Failure::UnknownVariable(name),
        None => result matches Ok(value) && yields(arithmetic, tree, env, value),
    }
}

/// The evaluator. It holds no state of its own: all that an evaluation
/// reads is handed to it.
pub struct Eval;

impl Eval {
    /// An evaluator.
    pub fn new() -> (evaluator: Self) {
        Self
    }

    /// Evaluates a tree in an environment, left operand before right.
    ///
    /// The only failure is a variable without a value; division by zero and
    /// the like are the arithmetic's to answer.
    pub fn eval<V: Copy, A: Fn(Operation<V>) -> V>(
        &self,
        node: &Node,
        vars: &Vars<V>,
        arithmetic: &A,
    ) -> (result: Result<V, Error>)
        requires
            node.well_formed(),
            total(*arithmetic),
        ensures
            evaluated(*arithmetic, node@, vars@, result),
        decreases node,
    {
        match node {
            Node::Num(text) => {
                let literal = Operation::Literal(text.as_str());
                assert(literal.valid());
                let value = arithmetic(literal);
                assert(denotes(*arithmetic, text@, value));
                Ok(value)
            },
            Node::Var(name) => match vars.get(name.as_str()) {
                Some(value) => Ok(*value),
                None => Err(Error::UnknownVariable(name.clone())),
            },
            Node::UnaryExpr(inner) => self.eval(inner, vars, arithmetic),
            Node::BinaryExpr { op, lhs, rhs } => {
                let left = match self.eval(lhs, vars, arithmetic) {
                    Ok(value) => value,
                    Err(e) => {
                        return Err(e);
                    },
                };
                let right = match self.eval(rhs, vars, arithmetic) {
                    Ok(value) => value,
                    Err(e) => {
                        return Err(e);
                    },
                };
                let application = Operation::Binary(*op, left, right);
                assert(application.valid());
                let value = arithmetic(application);
                assert(combines(*arithmetic, *op, left, right, value));
                Ok(value)
            },
        }
    }
}

/// The back end that evaluates a tree directly.
pub struct Interpreter;

impl<V: Copy, A: Fn(Operation<V>) -> V> Compile<V, A> for Interpreter {
    type Output = Result<V, Error>;

    open spec fn compiled(
        arithmetic: A,
        tree: Expr,
        env: Map<Seq<char>, V>,
        output: Result<V, Error>,
    ) -> bool {
        evaluated(arithmetic, tree, env, output)
    }

    fn from_ast(ast: &Node, vars: &Vars<V>, arithmetic: &A) -> (output: Result<V, Error>) {
        let evaluator = Eval::new();
        evaluator.eval(ast, vars, arithmetic)
    }
}

} // verus!
