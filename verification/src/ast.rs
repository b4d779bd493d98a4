//! The syntax tree shared by the parser and the evaluator, and its
//! mathematical model.

use vstd::prelude::*;
use vstd::string::*;
use crate::text::digit_run;

verus! {

/// The closed set of operators.
///
/// `Negative` only marks a negation while a tree is being built: no binary
/// node of a finished tree carries it.
#[derive(Debug, Copy, Clone, PartialEq, Eq, Structural)]
pub enum Operator {
    Plus,
    Minus,
    Multiply,
    Divide,
    Exponent,
    Negative,
}

impl Operator {
    /// The character an operator is written with. `Negative` is written like
    /// `Minus`.
    pub open spec fn glyph(self) -> char {
        match self {
            Operator::Plus => '+',
            Operator::Minus | Operator::Negative => '-',
            Operator::Multiply => '*',
            Operator::Divide => '/',
            Operator::Exponent => '^',
        }
    }

    /// The character this operator is written with.
    pub fn symbol(&self) -> (c: char)
        ensures
            c == self.glyph(),
    {
        match self {
            Operator::Plus => '+',
            Operator::Minus | Operator::Negative => '-',
            Operator::Multiply => '*',
            Operator::Divide => '/',
            Operator::Exponent => '^',
        }
    }

    /// The display form of this operator: its one character as a string.
    pub fn to_string(&self) -> (text: String)
        ensures
            text@ == seq![self.glyph()],
    {
        proof {
            reveal_strlit("+");
            reveal_strlit("-");
            reveal_strlit("*");
            reveal_strlit("/");
            reveal_strlit("^");
        }
        let text = match self {
            Operator::Plus => "+",
            Operator::Minus | Operator::Negative => "-",
            Operator::Multiply => "*",
            Operator::Divide => "/",
            Operator::Exponent => "^",
        };
        assert(text@ =~= seq![self.glyph()]);
        text.to_owned()
    }
}

/// Whether `text` is an unsigned decimal literal: one or more digits,
/// optionally followed by a point and one or more digits.
pub open spec fn is_unsigned_decimal(text: Seq<char>) -> bool {
    let whole = digit_run(text, 0) as int;
    &&& whole >= 1
    &&& whole == text.len() || {
        &&& whole < text.len()
        &&& text[whole] == '.'
        &&& digit_run(text, whole + 1) >= 1
        &&& whole + 1 + digit_run(text, whole + 1) == text.len()
    }
}

/// Whether `text` is a decimal literal, with or without a leading minus sign.
pub open spec fn is_decimal(text: Seq<char>) -> bool {
    if text.len() > 0 && text[0] == '-' {
        is_unsigned_decimal(text.skip(1))
    } else {
        is_unsigned_decimal(text)
    }
}

/// The model of a syntax tree: what a [`Node`] is, with every string taken as
/// the sequence of its characters.
pub enum Expr {
    /// A reference to a value that the environment supplies.
    Variable(Seq<char>),
    /// A number, kept as the decimal text that denotes it.
    Number(Seq<char>),
    /// A unary minus in front of anything but a bare literal.
    Unary(Box<Expr>),
    /// An operator between two operands.
    Binary(Operator, Box<Expr>, Box<Expr>),
}

impl Expr {
    /// The invariant of a finished tree: every number is a decimal literal,
    /// and no binary node carries the `Negative` marker.
    pub open spec fn well_formed(self) -> bool
        decreases self,
    {
        match self {
            Expr::Variable(_) => true,
            Expr::Number(text) => is_decimal(text),
            Expr::Unary(inner) => inner.well_formed(),
            Expr::Binary(op, lhs, rhs) => {
                &&& op != Operator::Negative
                &&& lhs.well_formed()
                &&& rhs.well_formed()
            },
        }
    }

    /// The number of nodes of the tree.
    pub open spec fn size(self) -> nat
        decreases self,
    {
        match self {
            Expr::Variable(_) => 1,
            Expr::Number(_) => 1,
            Expr::Unary(inner) => 1 + inner.size(),
            Expr::Binary(_, lhs, rhs) => 1 + lhs.size() + rhs.size(),
        }
    }

    /// The display form of the tree: its leaves and operators in source
    /// order, a space on either side of each operator, without parentheses.
    pub open spec fn text(self) -> Seq<char>
        decreases self,
    {
        match self {
            Expr::Variable(name) => name,
            Expr::Number(text) => text,
            Expr::Unary(inner) => inner.text(),
            Expr::Binary(op, lhs, rhs) => lhs.text() + seq![' ', op.glyph(), ' '] + rhs.text(),
        }
    }
}

/// A node of the syntax tree. Each node owns its children.
#[derive(Debug, PartialEq)]
pub enum Node {
    /// A variable, by name.
    Var(String),
    /// A number, as the decimal text that denotes it.
    Num(String),
    /// A unary minus in front of its operand.
    UnaryExpr(Box<Node>),
    /// An operator between two operands.
    BinaryExpr { op: Operator, lhs: Box<Node>, rhs: Box<Node> },
}

impl View for Node {
    type V = Expr;

    open spec fn view(&self) -> Expr
        decreases self,
    {
        match self {
            Node::Var(name) => Expr::Variable(name@),
            Node::Num(text) => Expr::Number(text@),
            Node::UnaryExpr(inner) => Expr::Unary(Box::new((**inner).view())),
            Node::BinaryExpr { op, lhs, rhs } => Expr::Binary(
                *op,
                Box::new((**lhs).view()),
                Box::new((**rhs).view()),
            ),
        }
    }
}

impl Clone for Node {
    /// A copy of the tree, node for node.
    fn clone(&self) -> (copy: Self)
        ensures
            copy@ == self@,
        decreases self,
    {
        match self {
            Node::Var(name) => Node::Var(name.clone()),
            Node::Num(text) => Node::Num(text.clone()),
            Node::UnaryExpr(inner) => Node::UnaryExpr(Box::new((**inner).clone())),
            Node::BinaryExpr { op, lhs, rhs } => Node::BinaryExpr {
                op: *op,
                lhs: Box::new((**lhs).clone()),
                rhs: Box::new((**rhs).clone()),
            },
        }
    }
}

impl Node {
    /// Whether the tree meets the invariant of a finished tree.
    pub open spec fn well_formed(&self) -> bool {
        self@.well_formed()
    }

    /// The display form of the tree, as [`Expr::text`] defines it.
    pub fn to_string(&self) -> (text: String)
        ensures
            text@ == self@.text(),
        decreases self,
    {
        match self {
            Node::Var(name) => name.clone(),
            Node::Num(text) => text.clone(),
            Node::UnaryExpr(inner) => inner.to_string(),
            Node::BinaryExpr { op, lhs, rhs } => {
                let mut text = lhs.to_string();
                proof {
                    reveal_strlit(" ");
                }
                text.append(" ");
                let glyph = op.to_string();
                text.append(glyph.as_str());
                text.append(" ");
                let right = rhs.to_string();
                text.append(right.as_str());
                assert(text@ =~= self@.text());
                text
            },
        }
    }
}

} // verus!
